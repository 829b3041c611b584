//! The tile grid, rooms, depth tables and level generation.

use crate::dice::{coin_flip, random_range, weight_sum, weighted_index};
use crate::fov::Fov;
use crate::item::{Equipment, Item, Slot};
use crate::log::Color;
use crate::object::{Ai, DeathCallback, Fighter, Object};
use crate::PLAYER;
use vstd::prelude::*;

verus! {

pub const MAP_WIDTH: i32 = 80;
pub const MAP_HEIGHT: i32 = 43;

pub const ROOM_MAX_SIZE: i32 = 10;
pub const ROOM_MIN_SIZE: i32 = 6;
pub const MAX_ROOMS: i32 = 30;

/// One cell of the dungeon grid.
#[derive(Clone, Copy, Debug, PartialEq, Eq, Structural)]
pub struct Tile {
    pub blocked: bool,
    pub block_sight: bool,
    pub explored: bool,
}

/// An unexplored open floor cell.
pub open spec fn floor_tile() -> Tile {
    Tile { blocked: false, block_sight: false, explored: false }
}

/// An unexplored wall cell.
pub open spec fn wall_tile() -> Tile {
    Tile { blocked: true, block_sight: true, explored: false }
}

impl Tile {
    /// An open floor cell.
    pub fn empty() -> (r: Self)
        ensures
            r == floor_tile(),
    {
        Tile { blocked: false, block_sight: false, explored: false }
    }

    /// A solid wall cell.
    pub fn wall() -> (r: Self)
        ensures
            r == wall_tile(),
    {
        Tile { blocked: true, block_sight: true, explored: false }
    }
}

/// Whether `(x, y)` lies on the grid.
pub open spec fn in_map(x: int, y: int) -> bool {
    0 <= x < MAP_WIDTH && 0 <= y < MAP_HEIGHT
}

/// Position of cell `(x, y)` in the flat, column-major grid.
pub open spec fn cell_index(x: int, y: int) -> int {
    x * MAP_HEIGHT + y
}

pub proof fn lemma_cell_index(x: int, y: int)
    requires
        in_map(x, y),
    ensures
        0 <= cell_index(x, y) < MAP_WIDTH * MAP_HEIGHT,
{
}

pub proof fn lemma_cell_index_injective(x: int, y: int, a: int, b: int)
    requires
        in_map(x, y),
        in_map(a, b),
    ensures
        cell_index(x, y) == cell_index(a, b) <==> (x == a && y == b),
{
}

/// The dungeon grid, `MAP_WIDTH` columns of `MAP_HEIGHT` tiles.
pub struct TileMap {
    pub tiles: Vec<Tile>,
}

impl TileMap {
    pub open spec fn wf(&self) -> bool {
        self.tiles@.len() == MAP_WIDTH * MAP_HEIGHT
    }

    pub open spec fn tile_at(&self, x: int, y: int) -> Tile {
        self.tiles@[cell_index(x, y)]
    }

    /// A grid of walls.
    pub fn new() -> (r: TileMap)
        ensures
            r.wf(),
            forall|x: int, y: int| in_map(x, y) ==> #[trigger] r.tile_at(x, y) == wall_tile(),
    {
        let n: usize = (MAP_WIDTH * MAP_HEIGHT) as usize;
        let tiles = vec![Tile::wall(); n];
        let r = TileMap { tiles };
        assert forall|x: int, y: int| in_map(x, y) implies #[trigger] r.tile_at(x, y)
            == wall_tile() by {
            lemma_cell_index(x, y);
        }
        r
    }

    /// The tile at `(x, y)`.
    pub fn tile(&self, x: i32, y: i32) -> (r: Tile)
        requires
            self.wf(),
            in_map(x as int, y as int),
        ensures
            r == self.tile_at(x as int, y as int),
    {
        proof {
            lemma_cell_index(x as int, y as int);
        }
        self.tiles[(x * MAP_HEIGHT + y) as usize]
    }

    /// Replaces the tile at `(x, y)`.
    pub fn set_tile(&mut self, x: i32, y: i32, t: Tile)
        requires
            old(self).wf(),
            in_map(x as int, y as int),
        ensures
            final(self).wf(),
            final(self).tile_at(x as int, y as int) == t,
            forall|a: int, b: int|
                in_map(a, b) && (a != x || b != y) ==> #[trigger] final(self).tile_at(a, b)
                    == old(self).tile_at(a, b),
    {
        proof {
            lemma_cell_index(x as int, y as int);
        }
        self.tiles[(x * MAP_HEIGHT + y) as usize] = t;
    }
}

/// Whether a blocking object stands on `(x, y)`.
pub open spec fn occupied(objects: Seq<Object>, x: int, y: int) -> bool {
    exists|i: int|
        0 <= i < objects.len() && (#[trigger] objects[i]).blocks && objects[i].x == x
            && objects[i].y == y
}

/// Whether `(x, y)` is a blocked tile or holds a blocking object.
pub open spec fn blocked_at(map: TileMap, objects: Seq<Object>, x: int, y: int) -> bool {
    map.tile_at(x, y).blocked || occupied(objects, x, y)
}

/// Whether nothing can move onto `(x, y)`.
pub fn is_blocked(x: i32, y: i32, map: &TileMap, objects: &Vec<Object>) -> (r: bool)
    requires
        map.wf(),
        in_map(x as int, y as int),
    ensures
        r == blocked_at(*map, objects@, x as int, y as int),
{
    if map.tile(x, y).blocked {
        return true;
    }
    let mut i: usize = 0;
    while i < objects.len()
        invariant
            i <= objects@.len(),
            forall|j: int|
                0 <= j < i ==> !((#[trigger] objects@[j]).blocks && objects@[j].x == x
                    && objects@[j].y == y),
        decreases objects@.len() - i,
    {
        if objects[i].blocks && objects[i].x == x && objects[i].y == y {
            return true;
        }
        i = i + 1;
    }
    false
}

impl TileMap {
    /// Marks as explored every cell that `fov` currently shows; explored cells stay explored.
    pub fn mark_explored(&mut self, fov: &Fov)
        requires
            old(self).wf(),
            fov.wf(),
        ensures
            final(self).wf(),
            forall|x: int, y: int|
                in_map(x, y) ==> #[trigger] final(self).tile_at(x, y) == (Tile {
                    explored: old(self).tile_at(x, y).explored || fov.visible_at(x, y),
                    ..old(self).tile_at(x, y)
                }),
    {
        let mut x: i32 = 0;
        while x < MAP_WIDTH
            invariant
                self.wf(),
                fov.wf(),
                0 <= x <= MAP_WIDTH,
                forall|a: int, b: int|
                    in_map(a, b) ==> #[trigger] self.tile_at(a, b) == (if a < x {
                        Tile {
                            explored: old(self).tile_at(a, b).explored || fov.visible_at(a, b),
                            ..old(self).tile_at(a, b)
                        }
                    } else {
                        old(self).tile_at(a, b)
                    }),
            decreases MAP_WIDTH - x,
        {
            let mut y: i32 = 0;
            while y < MAP_HEIGHT
                invariant
                    self.wf(),
                    fov.wf(),
                    0 <= x < MAP_WIDTH,
                    0 <= y <= MAP_HEIGHT,
                    forall|a: int, b: int|
                        in_map(a, b) ==> #[trigger] self.tile_at(a, b) == (if a < x || (a == x
                            && b < y) {
                            Tile {
                                explored: old(self).tile_at(a, b).explored || fov.visible_at(a, b),
                                ..old(self).tile_at(a, b)
                            }
                        } else {
                            old(self).tile_at(a, b)
                        }),
                decreases MAP_HEIGHT - y,
            {
                if fov.is_in_fov(x, y) {
                    let t = self.tile(x, y);
                    self.set_tile(x, y, Tile { explored: true, ..t });
                }
                y = y + 1;
            }
            x = x + 1;
        }
    }
}

/// Half of `n`, rounded toward zero.
pub open spec fn half_toward_zero(n: int) -> int {
    if n >= 0 {
        n / 2
    } else {
        -((-n) / 2)
    }
}

/// An axis-aligned rectangle given by two corners.
#[derive(Clone, Copy, Debug, PartialEq, Eq, Structural)]
pub struct Rect {
    pub x1: i32,
    pub x2: i32,
    pub y1: i32,
    pub y2: i32,
}

pub open spec fn rects_intersect(a: Rect, b: Rect) -> bool {
    a.x1 <= b.x2 && a.x2 >= b.x1 && a.y1 <= b.y2 && a.y2 >= b.y1
}

impl Rect {
    pub open spec fn center_x(self) -> int {
        half_toward_zero(self.x1 + self.x2)
    }

    pub open spec fn center_y(self) -> int {
        half_toward_zero(self.y1 + self.y2)
    }

    /// The rectangle with top-left corner `(x, y)`, width `w` and height `h`.
    pub fn new(x: i32, y: i32, w: i32, h: i32) -> (r: Self)
        requires
            i32::MIN <= x + w <= i32::MAX,
            i32::MIN <= y + h <= i32::MAX,
        ensures
            r.x1 == x,
            r.y1 == y,
            r.x2 == x + w,
            r.y2 == y + h,
    {
        Rect { x1: x, y1: y, x2: x + w, y2: y + h }
    }

    /// The midpoint of the rectangle, rounded toward zero.
    pub fn center(&self) -> (r: (i32, i32))
        ensures
            r.0 == self.center_x(),
            r.1 == self.center_y(),
    {
        let sx = self.x1 as i64 + self.x2 as i64;
        let sy = self.y1 as i64 + self.y2 as i64;
        let cx = if sx >= 0 {
            sx / 2
        } else {
            -((-sx) / 2)
        };
        let cy = if sy >= 0 {
            sy / 2
        } else {
            -((-sy) / 2)
        };
        (cx as i32, cy as i32)
    }

    /// Whether the two rectangles overlap or touch on both axes.
    pub fn intersects_with(&self, other: &Rect) -> (r: bool)
        ensures
            r == rects_intersect(*self, *other),
    {
        (self.x1 <= other.x2) && (self.x2 >= other.x1) && (self.y1 <= other.y2) && (self.y2
            >= other.y1)
    }
}

/// One row of a depth-scaled table: from dungeon level `level` on, the value is `value`.
#[derive(Clone, Copy, Debug, PartialEq, Eq, Structural)]
pub struct Transition {
    pub level: u32,
    pub value: u32,
}

/// The value of the last row of `table` whose level is at most `level`, or 0 when none is.
pub open spec fn table_value(table: Seq<Transition>, level: u32) -> u32
    decreases table.len(),
{
    if table.len() == 0 {
        0
    } else if level >= table.last().level {
        table.last().value
    } else {
        table_value(table.drop_last(), level)
    }
}

/// Looks up a depth-scaled table.
pub fn from_dungeon_level(table: &[Transition], level: u32) -> (r: u32)
    ensures
        r == table_value(table@, level),
{
    let mut i: usize = table.len();
    assert(table@.subrange(0, i as int) =~= table@);
    while i > 0
        invariant
            i <= table@.len(),
            table_value(table@, level) == table_value(table@.subrange(0, i as int), level),
        decreases i,
    {
        let t = table[i - 1];
        proof {
            assert(table@.subrange(0, i as int).drop_last() =~= table@.subrange(0, i - 1));
        }
        if level >= t.level {
            return t.value;
        }
        i = i - 1;
    }
    0
}

/// `m1` differs from `m0` only in cells that became open floor.
pub open spec fn only_opens(m0: TileMap, m1: TileMap) -> bool {
    &&& m1.wf()
    &&& forall|x: int, y: int|
        in_map(x, y) ==> #[trigger] m1.tile_at(x, y) == m0.tile_at(x, y) || m1.tile_at(x, y)
            == floor_tile()
}

/// Whether `(x, y)` lies strictly inside `room`.
pub open spec fn in_room(room: Rect, x: int, y: int) -> bool {
    room.x1 < x < room.x2 && room.y1 < y < room.y2
}

/// Whether the inside of `room` lies on the grid.
pub open spec fn room_fits(room: Rect) -> bool {
    0 <= room.x1 && room.x1 < room.x2 && room.x2 <= MAP_WIDTH && 0 <= room.y1 && room.y1 < room.y2
        && room.y2 <= MAP_HEIGHT
}

pub open spec fn min(a: int, b: int) -> int {
    if a <= b {
        a
    } else {
        b
    }
}

pub open spec fn max(a: int, b: int) -> int {
    if a >= b {
        a
    } else {
        b
    }
}

/// Whether every cell of row `y` between columns `x1` and `x2` is open floor.
pub open spec fn row_open(map: TileMap, x1: int, x2: int, y: int) -> bool {
    forall|x: int| min(x1, x2) <= x <= max(x1, x2) ==> #[trigger] map.tile_at(x, y) == floor_tile()
}

/// Whether every cell of column `x` between rows `y1` and `y2` is open floor.
pub open spec fn col_open(map: TileMap, y1: int, y2: int, x: int) -> bool {
    forall|y: int| min(y1, y2) <= y <= max(y1, y2) ==> #[trigger] map.tile_at(x, y) == floor_tile()
}

/// Whether the inside of `room` is open floor.
pub open spec fn room_open(map: TileMap, room: Rect) -> bool {
    forall|x: int, y: int| in_room(room, x, y) ==> #[trigger] map.tile_at(x, y) == floor_tile()
}

/// Opens the inside of `room`.
fn create_room(room: &Rect, map: &mut TileMap)
    requires
        old(map).wf(),
        room_fits(*room),
    ensures
        only_opens(*old(map), *final(map)),
        room_open(*final(map), *room),
        forall|x: int, y: int|
            in_map(x, y) && !in_room(*room, x, y) ==> #[trigger] final(map).tile_at(x, y) == old(map).tile_at(x, y),
{
    let mut x = room.x1 + 1;
    while x < room.x2
        invariant
            room_fits(*room),
            room.x1 + 1 <= x <= room.x2,
            only_opens(*old(map), *map),
            forall|a: int, b: int|
                room.x1 < a < x && room.y1 < b < room.y2 ==> #[trigger] map.tile_at(a, b)
                    == floor_tile(),
            forall|a: int, b: int|
                in_map(a, b) && !(room.x1 < a < x && room.y1 < b < room.y2) ==> #[trigger] map.tile_at(a, b)
                    == old(map).tile_at(a, b),
        decreases room.x2 - x,
    {
        let mut y = room.y1 + 1;
        while y < room.y2
            invariant
                room_fits(*room),
                room.x1 < x < room.x2,
                room.y1 + 1 <= y <= room.y2,
                only_opens(*old(map), *map),
                forall|a: int, b: int|
                    (room.x1 < a < x && room.y1 < b < room.y2) || (a == x && room.y1 < b < y)
                        ==> #[trigger] map.tile_at(a, b) == floor_tile(),
                forall|a: int, b: int|
                    in_map(a, b) && !((room.x1 < a < x && room.y1 < b < room.y2) || (a == x && room.y1 < b < y))
                        ==> #[trigger] map.tile_at(a, b) == old(map).tile_at(a, b),
            decreases room.y2 - y,
        {
            map.set_tile(x, y, Tile::empty());
            y = y + 1;
        }
        x = x + 1;
    }
}

/// Opens row `y` from column `x1` to column `x2`.
fn create_h_tunnel(x1: i32, x2: i32, y: i32, map: &mut TileMap)
    requires
        old(map).wf(),
        in_map(x1 as int, y as int),
        in_map(x2 as int, y as int),
    ensures
        only_opens(*old(map), *final(map)),
        row_open(*final(map), x1 as int, x2 as int, y as int),
        forall|a: int, b: int|
            in_map(a, b) && !(b == y && min(x1 as int, x2 as int) <= a <= max(x1 as int, x2 as int))
                ==> #[trigger] final(map).tile_at(a, b) == old(map).tile_at(a, b),
{
    let lo = if x1 <= x2 { x1 } else { x2 };
    let hi = if x1 <= x2 { x2 } else { x1 };
    let mut x = lo;
    while x <= hi
        invariant
            lo == min(x1 as int, x2 as int),
            hi == max(x1 as int, x2 as int),
            in_map(lo as int, y as int),
            in_map(hi as int, y as int),
            lo <= x <= hi + 1,
            only_opens(*old(map), *map),
            forall|a: int| lo <= a < x ==> #[trigger] map.tile_at(a, y as int) == floor_tile(),
            forall|a: int, b: int|
                in_map(a, b) && !(b == y && lo <= a < x) ==> #[trigger] map.tile_at(a, b) == old(map).tile_at(a, b),
        decreases hi + 1 - x,
    {
        map.set_tile(x, y, Tile::empty());
        x = x + 1;
    }
}

/// Opens column `x` from row `y1` to row `y2`.
fn create_v_tunnel(y1: i32, y2: i32, x: i32, map: &mut TileMap)
    requires
        old(map).wf(),
        in_map(x as int, y1 as int),
        in_map(x as int, y2 as int),
    ensures
        only_opens(*old(map), *final(map)),
        col_open(*final(map), y1 as int, y2 as int, x as int),
        forall|a: int, b: int|
            in_map(a, b) && !(a == x && min(y1 as int, y2 as int) <= b <= max(y1 as int, y2 as int))
                ==> #[trigger] final(map).tile_at(a, b) == old(map).tile_at(a, b),
{
    let lo = if y1 <= y2 { y1 } else { y2 };
    let hi = if y1 <= y2 { y2 } else { y1 };
    let mut y = lo;
    while y <= hi
        invariant
            lo == min(y1 as int, y2 as int),
            hi == max(y1 as int, y2 as int),
            in_map(x as int, lo as int),
            in_map(x as int, hi as int),
            lo <= y <= hi + 1,
            only_opens(*old(map), *map),
            forall|b: int| lo <= b < y ==> #[trigger] map.tile_at(x as int, b) == floor_tile(),
            forall|a: int, b: int|
                in_map(a, b) && !(a == x && lo <= b < y) ==> #[trigger] map.tile_at(a, b) == old(map).tile_at(a, b),
        decreases hi + 1 - y,
    {
        map.set_tile(x, y, Tile::empty());
        y = y + 1;
    }
}

pub open spec fn monster_cap_table() -> Seq<Transition> {
    seq![
        Transition { level: 1, value: 2 },
        Transition { level: 4, value: 3 },
        Transition { level: 6, value: 5 },
    ]
}

pub open spec fn troll_table() -> Seq<Transition> {
    seq![
        Transition { level: 3, value: 15 },
        Transition { level: 5, value: 30 },
        Transition { level: 7, value: 60 },
    ]
}

pub open spec fn item_cap_table() -> Seq<Transition> {
    seq![Transition { level: 1, value: 1 }, Transition { level: 4, value: 2 }]
}

/// From which level on each item kind appears, and with which weight.
pub open spec fn item_table(kind: int) -> Seq<Transition> {
    if kind == 0 {
        seq![Transition { level: 0, value: 35 }]
    } else if kind == 1 {
        seq![Transition { level: 4, value: 25 }]
    } else if kind == 2 {
        seq![Transition { level: 6, value: 25 }]
    } else if kind == 3 {
        seq![Transition { level: 2, value: 10 }]
    } else if kind == 4 {
        seq![Transition { level: 4, value: 5 }]
    } else {
        seq![Transition { level: 8, value: 15 }]
    }
}

/// The orc (kind 0) or troll (kind 1) template at `o`'s position.
pub open spec fn is_monster_kind(o: Object, kind: int) -> bool {
    &&& o.blocks && o.alive && !o.always_visible
    &&& o.ai == Some(Ai::Basic)
    &&& o.item is None && o.equipment is None
    &&& if kind == 0 {
        &&& o.name@ == "orc"@ && o.char == 'o' && o.color == Color::DesaturatedGreen
        &&& o.fighter == Some(
            Fighter {
                hp: 20,
                base_max_hp: 20,
                base_defense: 0,
                base_power: 4,
                on_death: DeathCallback::Monster,
                xp: 35,
            },
        )
    } else {
        &&& o.name@ == "troll"@ && o.char == 'T' && o.color == Color::DarkerGreen
        &&& o.fighter == Some(
            Fighter {
                hp: 16,
                base_max_hp: 30,
                base_defense: 2,
                base_power: 8,
                on_death: DeathCallback::Monster,
                xp: 100,
            },
        )
    }
}

/// The item template of kind `kind` (healing potion, lightning, fireball and confusion
/// scrolls, sword, shield) at `o`'s position.
pub open spec fn is_item_kind(o: Object, kind: int) -> bool {
    &&& !o.blocks && !o.alive && o.always_visible
    &&& o.fighter is None && o.ai is None
    &&& if kind == 0 {
        o.name@ == "healing potion"@ && o.char == '!' && o.color == Color::Violet && o.item == Some(
            Item::Heal,
        ) && o.equipment is None
    } else if kind == 1 {
        o.name@ == "scroll of lightning bolt"@ && o.char == '#' && o.color == Color::LightYellow
            && o.item == Some(Item::Lightning) && o.equipment is None
    } else if kind == 2 {
        o.name@ == "scroll of fireball"@ && o.char == '#' && o.color == Color::LightYellow
            && o.item == Some(Item::Fireball) && o.equipment is None
    } else if kind == 3 {
        o.name@ == "scroll of confusion"@ && o.char == '#' && o.color == Color::LightYellow
            && o.item == Some(Item::Confuse) && o.equipment is None
    } else if kind == 4 {
        o.name@ == "sword"@ && o.char == '/' && o.color == Color::Sky && o.item == Some(Item::Sword)
            && o.equipment == Some(
            Equipment {
                slot: Slot::RightHand,
                equipped: false,
                power_bonus: 3,
                defense_bonus: 0,
                max_hp_bonus: 0,
            },
        )
    } else {
        o.name@ == "shield"@ && o.char == '[' && o.color == Color::DarkerOrange && o.item == Some(
            Item::Shield,
        ) && o.equipment == Some(
            Equipment {
                slot: Slot::LeftHand,
                equipped: false,
                power_bonus: 0,
                defense_bonus: 1,
                max_hp_bonus: 0,
            },
        )
    }
}

/// A monster that may appear at `level`: an orc, or a troll once trolls have weight.
pub open spec fn monster_allowed(level: u32, o: Object) -> bool {
    is_monster_kind(o, 0) || (table_value(troll_table(), level) > 0 && is_monster_kind(o, 1))
}

/// An item of a kind that has weight at `level`.
pub open spec fn item_allowed(level: u32, o: Object) -> bool {
    exists|kind: int|
        0 <= kind < 6 && table_value(item_table(kind), level) > 0 && #[trigger] is_item_kind(o, kind)
}

/// `o` stands inside `room` on a cell that neither the grid nor `before` blocks.
pub open spec fn placed(map: TileMap, room: Rect, before: Seq<Object>, o: Object) -> bool {
    in_room(room, o.x as int, o.y as int) && !blocked_at(map, before, o.x as int, o.y as int)
}

/// `o1` is `o0` followed by `nm` monsters and then items, as `place_objects` adds them.
pub open spec fn populated(
    map: TileMap,
    room: Rect,
    level: u32,
    o0: Seq<Object>,
    o1: Seq<Object>,
    nm: int,
) -> bool {
    &&& 0 <= nm <= table_value(monster_cap_table(), level)
    &&& o0.len() + nm <= o1.len()
    &&& o1.len() - o0.len() - nm <= table_value(item_cap_table(), level)
    &&& forall|k: int|
        o0.len() <= k < o1.len() ==> placed(map, room, o1.subrange(0, k), #[trigger] o1[k])
    &&& forall|k: int| o0.len() <= k < o0.len() + nm ==> monster_allowed(level, #[trigger] o1[k])
    &&& forall|k: int| o0.len() + nm <= k < o1.len() ==> item_allowed(level, #[trigger] o1[k])
}

/// A depth table's value is 0 or the value of one of its rows.
pub proof fn lemma_table_value_in(t: Seq<Transition>, level: u32)
    ensures
        table_value(t, level) == 0 || exists|i: int|
            0 <= i < t.len() && table_value(t, level) == (#[trigger] t[i]).value,
    decreases t.len(),
{
    if t.len() > 0 && level < t.last().level {
        lemma_table_value_in(t.drop_last(), level);
        if table_value(t.drop_last(), level) != 0 {
            let i = choose|i: int|
                0 <= i < t.drop_last().len() && table_value(t.drop_last(), level) == (
                #[trigger] t.drop_last()[i]).value;
            assert(t[i] == t.drop_last()[i]);
        }
    }
}

fn rows1(level: u32, value: u32) -> (r: Vec<Transition>)
    ensures
        r@ == seq![Transition { level, value }],
{
    let mut r = Vec::new();
    r.push(Transition { level, value });
    assert(r@ =~= seq![Transition { level, value }]);
    r
}

fn rows2(a: Transition, b: Transition) -> (r: Vec<Transition>)
    ensures
        r@ == seq![a, b],
{
    let mut r = Vec::new();
    r.push(a);
    r.push(b);
    assert(r@ =~= seq![a, b]);
    r
}

fn rows3(a: Transition, b: Transition, c: Transition) -> (r: Vec<Transition>)
    ensures
        r@ == seq![a, b, c],
{
    let mut r = Vec::new();
    r.push(a);
    r.push(b);
    r.push(c);
    assert(r@ =~= seq![a, b, c]);
    r
}

/// A fresh orc (kind 0) or troll (kind 1) at `(x, y)`.
fn make_monster(kind: usize, x: i32, y: i32) -> (r: Object)
    ensures
        is_monster_kind(r, kind as int),
        r.x == x && r.y == y,
{
    let mut monster = if kind == 0 {
        let mut orc = Object::new(x, y, 'o', "orc", Color::DesaturatedGreen, true);
        orc.fighter = Some(
            Fighter {
                hp: 20,
                base_max_hp: 20,
                base_defense: 0,
                base_power: 4,
                on_death: DeathCallback::Monster,
                xp: 35,
            },
        );
        orc.ai = Some(Ai::Basic);
        orc
    } else {
        let mut troll = Object::new(x, y, 'T', "troll", Color::DarkerGreen, true);
        troll.fighter = Some(
            Fighter {
                hp: 16,
                base_max_hp: 30,
                base_defense: 2,
                base_power: 8,
                on_death: DeathCallback::Monster,
                xp: 100,
            },
        );
        troll.ai = Some(Ai::Basic);
        troll
    };
    monster.alive = true;
    monster
}

/// A fresh item of kind `kind` at `(x, y)`.
fn make_item(kind: usize, x: i32, y: i32) -> (r: Object)
    ensures
        is_item_kind(r, kind as int),
        r.x == x && r.y == y,
{
    let mut item = if kind == 0 {
        let mut object = Object::new(x, y, '!', "healing potion", Color::Violet, false);
        object.item = Some(Item::Heal);
        object
    } else if kind == 1 {
        let mut object = Object::new(x, y, '#', "scroll of lightning bolt", Color::LightYellow, false);
        object.item = Some(Item::Lightning);
        object
    } else if kind == 2 {
        let mut object = Object::new(x, y, '#', "scroll of fireball", Color::LightYellow, false);
        object.item = Some(Item::Fireball);
        object
    } else if kind == 3 {
        let mut object = Object::new(x, y, '#', "scroll of confusion", Color::LightYellow, false);
        object.item = Some(Item::Confuse);
        object
    } else if kind == 4 {
        let mut object = Object::new(x, y, '/', "sword", Color::Sky, false);
        object.item = Some(Item::Sword);
        object.equipment = Some(
            Equipment {
                equipped: false,
                slot: Slot::RightHand,
                power_bonus: 3,
                defense_bonus: 0,
                max_hp_bonus: 0,
            },
        );
        object
    } else {
        let mut object = Object::new(x, y, '[', "shield", Color::DarkerOrange, false);
        object.item = Some(Item::Shield);
        object.equipment = Some(
            Equipment {
                equipped: false,
                slot: Slot::LeftHand,
                power_bonus: 0,
                defense_bonus: 1,
                max_hp_bonus: 0,
            },
        );
        object
    };
    item.always_visible = true;
    item
}

/// Whether `c` lies inside `room` on a cell that neither the grid nor `objects` blocks.
pub open spec fn free_cell(room: Rect, map: TileMap, objects: Seq<Object>, c: (i32, i32)) -> bool {
    in_room(room, c.0 as int, c.1 as int) && !blocked_at(map, objects, c.0 as int, c.1 as int)
}

/// `j` is the first of `cells` that is free.
pub open spec fn first_free(room: Rect, map: TileMap, objects: Seq<Object>, cells: Seq<(i32, i32)>, j: int) -> bool {
    &&& 0 <= j < cells.len()
    &&& free_cell(room, map, objects, cells[j])
    &&& forall|i: int| 0 <= i < j ==> !free_cell(room, map, objects, #[trigger] cells[i])
}

/// `o` is the monster template (`monster`) or the item template of kind `kind`.
pub open spec fn spawn_kind(o: Object, kind: int, monster: bool) -> bool {
    if monster {
        is_monster_kind(o, kind)
    } else {
        is_item_kind(o, kind)
    }
}

/// One draw placed from `o0` to `o1`: the object of kind `kind` lands on the first free
/// cell of `cells`, and nothing is added when none is free.
pub open spec fn placed_one(
    room: Rect,
    map: TileMap,
    o0: Seq<Object>,
    o1: Seq<Object>,
    cells: Seq<(i32, i32)>,
    kind: int,
    monster: bool,
) -> bool {
    ||| exists|j: int|
        {
            &&& #[trigger] first_free(room, map, o0, cells, j)
            &&& o1.len() == o0.len() + 1
            &&& o1.subrange(0, o0.len() as int) == o0
            &&& o1.last().x == cells[j].0 && o1.last().y == cells[j].1
            &&& spawn_kind(o1.last(), kind, monster)
        }
    ||| {
        &&& forall|j: int| 0 <= j < cells.len() ==> !free_cell(room, map, o0, #[trigger] cells[j])
        &&& o1 == o0
    }
}

/// The draws `monsters`, then `items`, placed one after the other through the states `os`,
/// from `o0` to `o1`.
pub open spec fn drawn_steps(
    room: Rect,
    map: TileMap,
    o0: Seq<Object>,
    o1: Seq<Object>,
    os: Seq<Seq<Object>>,
    monsters: Seq<(Vec<(i32, i32)>, usize)>,
    items: Seq<(Vec<(i32, i32)>, usize)>,
) -> bool {
    let m = monsters.len() as int;
    &&& os.len() == m + items.len() + 1
    &&& os[0] == o0
    &&& os[os.len() - 1] == o1
    &&& forall|i: int|
        0 <= i < m ==> #[trigger] placed_one(room, map, os[i], os[i + 1], monsters[i].0@, monsters[i].1 as int, true)
    &&& forall|i: int|
        m <= i < os.len() - 1 ==> #[trigger] placed_one(
            room,
            map,
            os[i],
            os[i + 1],
            items[i - m].0@,
            items[i - m].1 as int,
            false,
        )
}

/// What any placement of `monsters` then `items` leaves: `nm` monsters of drawn kinds and
/// then items of drawn kinds appended, each on a cell free when it was placed.
pub open spec fn drawn_summary(
    room: Rect,
    map: TileMap,
    o0: Seq<Object>,
    o1: Seq<Object>,
    monsters: Seq<(Vec<(i32, i32)>, usize)>,
    items: Seq<(Vec<(i32, i32)>, usize)>,
    nm: int,
) -> bool {
    &&& 0 <= nm <= monsters.len()
    &&& o0.len() + nm <= o1.len()
    &&& o1.len() - o0.len() - nm <= items.len()
    &&& o1.subrange(0, o0.len() as int) == o0
    &&& forall|k: int| o0.len() <= k < o1.len() ==> placed(map, room, o1.subrange(0, k), #[trigger] o1[k])
    &&& kinds_from(o1, o0.len() as int, o0.len() + nm, monsters, true)
    &&& kinds_from(o1, o0.len() + nm, o1.len() as int, items, false)
}

/// Each of `o[lo..hi]` is of the kind of one of `draws`.
pub open spec fn kinds_from(
    o: Seq<Object>,
    lo: int,
    hi: int,
    draws: Seq<(Vec<(i32, i32)>, usize)>,
    monster: bool,
) -> bool {
    forall|k: int| lo <= k < hi ==> #[trigger] has_kind(o[k], draws, monster)
}

/// `o` is of the kind of one of `draws`.
pub open spec fn has_kind(o: Object, draws: Seq<(Vec<(i32, i32)>, usize)>, monster: bool) -> bool {
    exists|i: int| 0 <= i < draws.len() && #[trigger] spawn_kind(o, draws[i].1 as int, monster)
}

proof fn lemma_kinds_step(
    before: Seq<Object>,
    after: Seq<Object>,
    lo: int,
    draws: Seq<(Vec<(i32, i32)>, usize)>,
    idx: int,
    monster: bool,
)
    requires
        kinds_from(before, lo, before.len() as int, draws, monster),
        0 <= lo <= before.len(),
        0 <= idx < draws.len(),
        after.len() == before.len() || (after.len() == before.len() + 1 && spawn_kind(
            after.last(),
            draws[idx].1 as int,
            monster,
        )),
        forall|k: int| 0 <= k < before.len() ==> after[k] == before[k],
    ensures
        kinds_from(after, lo, after.len() as int, draws, monster),
{
    assert forall|k: int| lo <= k < after.len() implies #[trigger] has_kind(after[k], draws, monster) by {
        if k < before.len() {
            assert(after[k] == before[k]);
            assert(has_kind(before[k], draws, monster));
        } else {
            assert(spawn_kind(after[k], draws[idx].1 as int, monster));
        }
    }
}

/// Places one draw: an object of kind `kind` (a monster when `monster`) on the first free
/// cell of `cells`, or nothing when none is free.
pub fn place_one(
    room: &Rect,
    map: &TileMap,
    objects: &mut Vec<Object>,
    cells: &Vec<(i32, i32)>,
    kind: usize,
    monster: bool,
)
    requires
        map.wf(),
        room_fits(*room),
    ensures
        placed_one(*room, *map, old(objects)@, final(objects)@, cells@, kind as int, monster),
{
    let mut i: usize = 0;
    while i < cells.len()
        invariant
            map.wf(),
            room_fits(*room),
            i <= cells@.len(),
            objects@ == old(objects)@,
            forall|j: int| 0 <= j < i ==> !free_cell(*room, *map, objects@, #[trigger] cells@[j]),
        decreases cells@.len() - i,
    {
        let (x, y) = cells[i];
        if room.x1 < x && x < room.x2 && room.y1 < y && y < room.y2 {
            if !is_blocked(x, y, map, objects) {
                let o = if monster {
                    make_monster(kind, x, y)
                } else {
                    make_item(kind, x, y)
                };
                objects.push(o);
                proof {
                    assert(first_free(*room, *map, old(objects)@, cells@, i as int));
                    assert(objects@.subrange(0, old(objects)@.len() as int) =~= old(objects)@);
                }
                return;
            }
        }
        i = i + 1;
    }
}

proof fn lemma_step_summary(
    room: Rect,
    map: TileMap,
    start: Seq<Object>,
    before: Seq<Object>,
    after: Seq<Object>,
    cells: Seq<(i32, i32)>,
    kind: int,
    monster: bool,
)
    requires
        placed_one(room, map, before, after, cells, kind, monster),
        start.len() <= before.len(),
        before.subrange(0, start.len() as int) == start,
        forall|k: int| start.len() <= k < before.len() ==> placed(map, room, before.subrange(0, k), #[trigger] before[k]),
    ensures
        after.len() == before.len() || (after.len() == before.len() + 1 && spawn_kind(after.last(), kind, monster)),
        after.subrange(0, before.len() as int) == before,
        after.subrange(0, start.len() as int) == start,
        forall|k: int| start.len() <= k < after.len() ==> placed(map, room, after.subrange(0, k), #[trigger] after[k]),
        forall|k: int| 0 <= k < before.len() ==> after[k] == before[k],
{
    if after != before {
        let j = choose|j: int|
            {
                &&& #[trigger] first_free(room, map, before, cells, j)
                &&& after.len() == before.len() + 1
                &&& after.subrange(0, before.len() as int) == before
                &&& after.last().x == cells[j].0 && after.last().y == cells[j].1
                &&& spawn_kind(after.last(), kind, monster)
            };
        assert forall|k: int| 0 <= k < before.len() implies after[k] == before[k] by {
            assert(after[k] == after.subrange(0, before.len() as int)[k]);
        }
        assert(after.subrange(0, start.len() as int) =~= start);
        assert forall|k: int| start.len() <= k < after.len() implies placed(map, room, after.subrange(0, k), #[trigger] after[k]) by {
            if k < before.len() {
                assert(after.subrange(0, k) =~= before.subrange(0, k));
            } else {
                assert(after.subrange(0, k) =~= before);
            }
        }
    } else {
        assert(after.subrange(0, before.len() as int) =~= before);
    }
}

/// Places the draws `monsters` and then `items` in order, each as `place_one` does.
pub fn place_drawn(
    room: &Rect,
    map: &TileMap,
    objects: &mut Vec<Object>,
    monsters: &Vec<(Vec<(i32, i32)>, usize)>,
    items: &Vec<(Vec<(i32, i32)>, usize)>,
)
    requires
        map.wf(),
        room_fits(*room),
    ensures
        exists|os: Seq<Seq<Object>>|
            #[trigger] drawn_steps(*room, *map, old(objects)@, final(objects)@, os, monsters@, items@),
        exists|nm: int| #[trigger] drawn_summary(*room, *map, old(objects)@, final(objects)@, monsters@, items@, nm),
{
    let ghost start = old(objects)@;
    let ghost mut os: Seq<Seq<Object>> = seq![objects@];
    let m = monsters.len();
    let mut i: usize = 0;
    proof {
        assert(start.subrange(0, start.len() as int) =~= start);
    }
    while i < m
        invariant
            map.wf(),
            room_fits(*room),
            m == monsters@.len(),
            i <= m,
            os.len() == i + 1,
            os[0] == start,
            os[i as int] == objects@,
            forall|j: int|
                0 <= j < i ==> #[trigger] placed_one(*room, *map, os[j], os[j + 1], monsters@[j].0@, monsters@[j].1 as int, true),
            start.len() <= objects@.len() <= start.len() + i,
            objects@.subrange(0, start.len() as int) == start,
            forall|k: int| start.len() <= k < objects@.len() ==> placed(*map, *room, objects@.subrange(0, k), #[trigger] objects@[k]),
            kinds_from(objects@, start.len() as int, objects@.len() as int, monsters@, true),
        decreases m - i,
    {
        let ghost before = objects@;
        place_one(room, map, objects, &monsters[i].0, monsters[i].1, true);
        proof {
            lemma_step_summary(*room, *map, start, before, objects@, monsters@[i as int].0@, monsters@[i as int].1 as int, true);
            lemma_kinds_step(before, objects@, start.len() as int, monsters@, i as int, true);
            let os2 = os.push(objects@);
            assert forall|j: int| 0 <= j < i + 1 implies #[trigger] placed_one(*room, *map, os2[j], os2[j + 1], monsters@[j].0@, monsters@[j].1 as int, true) by {
                if j < i {
                    assert(os2[j] == os[j] && os2[j + 1] == os[j + 1]);
                }
            }
            os = os2;
        }
        i = i + 1;
    }
    let ghost after_monsters = objects@;
    let ghost nm = objects@.len() - start.len();
    let n = items.len();
    let mut t: usize = 0;
    while t < n
        invariant
            map.wf(),
            room_fits(*room),
            m == monsters@.len(),
            n == items@.len(),
            t <= n,
            os.len() == m + t + 1,
            os[0] == start,
            os[m + t] == objects@,
            forall|j: int|
                0 <= j < m ==> #[trigger] placed_one(*room, *map, os[j], os[j + 1], monsters@[j].0@, monsters@[j].1 as int, true),
            forall|j: int|
                m <= j < m + t ==> #[trigger] placed_one(*room, *map, os[j], os[j + 1], items@[j - m].0@, items@[j - m].1 as int, false),
            0 <= nm <= m,
            after_monsters.len() == start.len() + nm,
            after_monsters.len() <= objects@.len() <= after_monsters.len() + t,
            objects@.subrange(0, after_monsters.len() as int) == after_monsters,
            after_monsters.subrange(0, start.len() as int) == start,
            forall|k: int| start.len() <= k < objects@.len() ==> placed(*map, *room, objects@.subrange(0, k), #[trigger] objects@[k]),
            objects@.subrange(0, start.len() as int) == start,
            kinds_from(after_monsters, start.len() as int, start.len() + nm, monsters@, true),
            kinds_from(objects@, after_monsters.len() as int, objects@.len() as int, items@, false),
        decreases n - t,
    {
        let ghost before = objects@;
        place_one(room, map, objects, &items[t].0, items[t].1, false);
        proof {
            lemma_step_summary(*room, *map, start, before, objects@, items@[t as int].0@, items@[t as int].1 as int, false);
            assert(objects@.subrange(0, after_monsters.len() as int) =~= after_monsters) by {
                assert(objects@.subrange(0, after_monsters.len() as int) =~= before.subrange(0, after_monsters.len() as int));
            }
            lemma_kinds_step(before, objects@, after_monsters.len() as int, items@, t as int, false);
            let os2 = os.push(objects@);
            assert forall|j: int| 0 <= j < m implies #[trigger] placed_one(*room, *map, os2[j], os2[j + 1], monsters@[j].0@, monsters@[j].1 as int, true) by {
                assert(os2[j] == os[j] && os2[j + 1] == os[j + 1]);
            }
            assert forall|j: int| m <= j < m + t + 1 implies #[trigger] placed_one(*room, *map, os2[j], os2[j + 1], items@[j - m].0@, items@[j - m].1 as int, false) by {
                if j < m + t {
                    assert(os2[j] == os[j] && os2[j + 1] == os[j + 1]);
                }
            }
            os = os2;
        }
        t = t + 1;
    }
    proof {
        assert(drawn_steps(*room, *map, start, objects@, os, monsters@, items@));
        assert(objects@.subrange(0, start.len() as int) =~= start) by {
            assert(objects@.subrange(0, start.len() as int) =~= after_monsters.subrange(0, start.len() as int));
        }
        assert forall|k: int| start.len() <= k < start.len() + nm implies #[trigger] has_kind(objects@[k], monsters@, true) by {
            assert(objects@[k] == objects@.subrange(0, after_monsters.len() as int)[k]);
            assert(objects@[k] == after_monsters[k]);
            assert(has_kind(after_monsters[k], monsters@, true));
        }
        assert(drawn_summary(*room, *map, start, objects@, monsters@, items@, nm));
    }
}

/// `n` random cells inside `room`.
fn draw_cells(room: &Rect, n: i32) -> (r: Vec<(i32, i32)>)
    requires
        room.x1 + 1 < room.x2,
        room.y1 + 1 < room.y2,
        n >= 0,
    ensures
        r@.len() == n,
        forall|i: int| 0 <= i < n ==> in_room(*room, (#[trigger] r@[i]).0 as int, r@[i].1 as int),
{
    let mut cells: Vec<(i32, i32)> = Vec::new();
    let mut i: i32 = 0;
    while i < n
        invariant
            room.x1 + 1 < room.x2,
            room.y1 + 1 < room.y2,
            0 <= i <= n,
            cells@.len() == i,
            forall|j: int| 0 <= j < i ==> in_room(*room, (#[trigger] cells@[j]).0 as int, cells@[j].1 as int),
        decreases n - i,
    {
        let x = random_range(room.x1 + 1, room.x2);
        let y = random_range(room.y1 + 1, room.y2);
        cells.push((x, y));
        i = i + 1;
    }
    cells
}

/// Populates `room` with monsters and then items. The counts are drawn up to the depth
/// tables' caps; each monster or item gets a kind drawn by the depth's weights and twice as
/// many random cells of the room as it has inside cells, and lands on the first free one
/// (it is left out when none is free), as `place_drawn` places them.
pub fn place_objects(room: &Rect, map: &TileMap, objects: &mut Vec<Object>, level: u32)
    requires
        map.wf(),
        room_fits(*room),
        room.x1 + 1 < room.x2,
        room.y1 + 1 < room.y2,
    ensures
        final(objects)@.len() >= old(objects)@.len(),
        final(objects)@.subrange(0, old(objects)@.len() as int) == old(objects)@,
        exists|nm: int| #[trigger] populated(*map, *room, level, old(objects)@, final(objects)@, nm),
        exists|
            ms: Seq<(Vec<(i32, i32)>, usize)>,
            its: Seq<(Vec<(i32, i32)>, usize)>,
            os: Seq<Seq<Object>>,
        |
            {
                &&& #[trigger] drawn_steps(*room, *map, old(objects)@, final(objects)@, os, ms, its)
                &&& ms.len() <= table_value(monster_cap_table(), level)
                &&& its.len() <= table_value(item_cap_table(), level)
            },
{
    let ghost start = old(objects)@;
    let max_monsters = from_dungeon_level(
        rows3(
            Transition { level: 1, value: 2 },
            Transition { level: 4, value: 3 },
            Transition { level: 6, value: 5 },
        ).as_slice(),
        level,
    );
    let troll_chance = from_dungeon_level(
        rows3(
            Transition { level: 3, value: 15 },
            Transition { level: 5, value: 30 },
            Transition { level: 7, value: 60 },
        ).as_slice(),
        level,
    );
    proof {
        lemma_table_value_in(monster_cap_table(), level);
        lemma_table_value_in(troll_table(), level);
    }
    let mut monster_chances: Vec<u32> = Vec::new();
    monster_chances.push(80);
    monster_chances.push(troll_chance);
    proof {
        assert(monster_chances@.drop_last().drop_last() =~= Seq::<u32>::empty());
        reveal_with_fuel(weight_sum, 3);
        assert(weight_sum(monster_chances@) == 80 + troll_chance);
    }
    let w = room.x2 - room.x1 - 1;
    let h = room.y2 - room.y1 - 1;
    assert(0 < w * h <= 80 * 43) by (nonlinear_arith)
        requires
            0 < w <= 80,
            0 < h <= 43,
    ;
    let tries = 2 * (w * h);
    let num_monsters = random_range(0, max_monsters as i32 + 1);
    let mut monsters: Vec<(Vec<(i32, i32)>, usize)> = Vec::new();
    let mut i: i32 = 0;
    while i < num_monsters
        invariant
            room.x1 + 1 < room.x2,
            room.y1 + 1 < room.y2,
            tries >= 0,
            0 <= i <= num_monsters,
            monsters@.len() == i,
            monster_chances@ == seq![80u32, troll_chance],
            weight_sum(monster_chances@) == 80 + troll_chance,
            troll_chance <= 60,
            forall|j: int|
                0 <= j < i ==> (#[trigger] monsters@[j]).1 < 2 && monster_chances@[monsters@[j].1 as int] > 0,
        decreases num_monsters - i,
    {
        let cells = draw_cells(room, tries);
        let kind = weighted_index(&monster_chances);
        monsters.push((cells, kind));
        i = i + 1;
    }
    let max_items = from_dungeon_level(
        rows2(Transition { level: 1, value: 1 }, Transition { level: 4, value: 2 }).as_slice(),
        level,
    );
    let mut item_chances: Vec<u32> = Vec::new();
    item_chances.push(35);
    item_chances.push(from_dungeon_level(rows1(4, 25).as_slice(), level));
    item_chances.push(from_dungeon_level(rows1(6, 25).as_slice(), level));
    item_chances.push(from_dungeon_level(rows1(2, 10).as_slice(), level));
    item_chances.push(from_dungeon_level(rows1(4, 5).as_slice(), level));
    item_chances.push(from_dungeon_level(rows1(8, 15).as_slice(), level));
    proof {
        lemma_table_value_in(item_cap_table(), level);
        let w = item_chances@;
        assert forall|k: int| 0 <= k < 6 implies #[trigger] w[k] == table_value(item_table(k), level) && w[k] <= 35 by {
            lemma_table_value_in(item_table(k), level);
        }
        assert(w.drop_last().drop_last().drop_last().drop_last().drop_last().drop_last()
            =~= Seq::<u32>::empty());
        reveal_with_fuel(weight_sum, 7);
        assert(weight_sum(w) == w[0] + w[1] + w[2] + w[3] + w[4] + w[5]);
    }
    let num_items = random_range(0, max_items as i32 + 1);
    let mut items: Vec<(Vec<(i32, i32)>, usize)> = Vec::new();
    let mut j: i32 = 0;
    while j < num_items
        invariant
            room.x1 + 1 < room.x2,
            room.y1 + 1 < room.y2,
            tries >= 0,
            0 <= j <= num_items,
            items@.len() == j,
            item_chances@.len() == 6,
            forall|k: int| 0 <= k < 6 ==> #[trigger] item_chances@[k] == table_value(item_table(k), level),
            0 < weight_sum(item_chances@) <= 210,
            forall|k: int|
                0 <= k < j ==> (#[trigger] items@[k]).1 < 6 && item_chances@[items@[k].1 as int] > 0,
        decreases num_items - j,
    {
        let cells = draw_cells(room, tries);
        let kind = weighted_index(&item_chances);
        items.push((cells, kind));
        j = j + 1;
    }
    place_drawn(room, map, objects, &monsters, &items);
    proof {
        let nm = choose|nm: int| #[trigger] drawn_summary(*room, *map, start, objects@, monsters@, items@, nm);
        assert forall|k: int| start.len() <= k < start.len() + nm implies monster_allowed(level, #[trigger] objects@[k]) by {
            assert(has_kind(objects@[k], monsters@, true));
            let q = choose|q: int| 0 <= q < monsters@.len() && #[trigger] spawn_kind(objects@[k], monsters@[q].1 as int, true);
            assert(monster_chances@[monsters@[q].1 as int] > 0);
        }
        assert forall|k: int| start.len() + nm <= k < objects@.len() implies item_allowed(level, #[trigger] objects@[k]) by {
            assert(has_kind(objects@[k], items@, false));
            let q = choose|q: int| 0 <= q < items@.len() && #[trigger] spawn_kind(objects@[k], items@[q].1 as int, false);
            let kind = items@[q].1 as int;
            assert(item_chances@[kind] > 0);
            assert(table_value(item_table(kind), level) > 0 && is_item_kind(objects@[k], kind));
        }
        assert(populated(*map, *room, level, start, objects@, nm));
    }
}

/// Whether the rooms' centres `(ax, ay)` and `(bx, by)` are joined by an open L-shaped
/// corridor, horizontal then vertical or vertical then horizontal.
pub open spec fn corridor_open(map: TileMap, a: Rect, b: Rect) -> bool {
    let ax = a.center_x();
    let ay = a.center_y();
    let bx = b.center_x();
    let by = b.center_y();
    (row_open(map, ax, bx, ay) && col_open(map, ay, by, bx)) || (col_open(map, ay, by, ax)
        && row_open(map, ax, bx, by))
}

/// A room as the generator samples it: its size within the room limits, inside the grid.
pub open spec fn room_shape_ok(r: Rect) -> bool {
    &&& 0 <= r.x1 && r.x2 < MAP_WIDTH && 0 <= r.y1 && r.y2 < MAP_HEIGHT
    &&& ROOM_MIN_SIZE <= r.x2 - r.x1 <= ROOM_MAX_SIZE
    &&& ROOM_MIN_SIZE <= r.y2 - r.y1 <= ROOM_MAX_SIZE
}

/// The accepted `rooms` of `map`: well shaped, open inside, pairwise apart, and each one
/// joined to the one before it by an open corridor.
pub open spec fn rooms_ok(map: TileMap, rooms: Seq<Rect>) -> bool {
    &&& forall|i: int| 0 <= i < rooms.len() ==> room_shape_ok(#[trigger] rooms[i])
    &&& forall|i: int| 0 <= i < rooms.len() ==> room_open(map, #[trigger] rooms[i])
    &&& forall|i: int, j: int|
        0 <= i < j < rooms.len() ==> !rects_intersect(#[trigger] rooms[i], #[trigger] rooms[j])
    &&& forall|i: int| 0 < i < rooms.len() ==> corridor_open(map, rooms[i - 1], #[trigger] rooms[i])
}

/// Whether `(x, y)` lies inside one of `rooms`.
pub open spec fn in_some_room(rooms: Seq<Rect>, x: int, y: int) -> bool {
    exists|i: int| 0 <= i < rooms.len() && in_room(#[trigger] rooms[i], x, y)
}

/// The stairs feature at `(x, y)`.
pub open spec fn is_stairs(o: Object, x: int, y: int) -> bool {
    &&& o.x == x && o.y == y
    &&& o.name@ == "stairs"@ && o.char == '<' && o.color == Color::White
    &&& !o.blocks && !o.alive && o.always_visible
    &&& o.fighter is None && o.ai is None && o.item is None && o.equipment is None
}

pub open spec fn between(v: int, a: int, b: int) -> bool {
    min(a, b) <= v <= max(a, b)
}

/// Whether `(x, y)` lies on one of the two L-shaped corridors between the centres of `a`
/// and `b`.
pub open spec fn on_l_path(a: Rect, b: Rect, x: int, y: int) -> bool {
    let ax = a.center_x();
    let ay = a.center_y();
    let bx = b.center_x();
    let by = b.center_y();
    ||| y == ay && between(x, ax, bx)
    ||| x == bx && between(y, ay, by)
    ||| x == ax && between(y, ay, by)
    ||| y == by && between(x, ax, bx)
}

/// Whether `(x, y)` lies on a corridor between two consecutive rooms.
pub open spec fn on_corridor(rooms: Seq<Rect>, x: int, y: int) -> bool {
    exists|i: int| 0 < i < rooms.len() && on_l_path(rooms[i - 1], #[trigger] rooms[i], x, y)
}

/// Every cell is a wall or open floor, and floor only inside a room or on a corridor.
pub open spec fn carved(map: TileMap, rooms: Seq<Rect>) -> bool {
    forall|x: int, y: int|
        in_map(x, y) ==> #[trigger] map.tile_at(x, y) == wall_tile() || (map.tile_at(x, y)
            == floor_tile() && (in_some_room(rooms, x, y) || on_corridor(rooms, x, y)))
}

/// The outermost rows and columns of the grid are walls.
pub open spec fn border_walled(map: TileMap) -> bool {
    forall|x: int, y: int|
        in_map(x, y) && (x == 0 || y == 0 || x == MAP_WIDTH - 1 || y == MAP_HEIGHT - 1)
            ==> #[trigger] map.tile_at(x, y) == wall_tile()
}

/// From `m0` to `m1` cells only became floor, inside `r` or on a corridor from the last of
/// `rooms` to `r`.
pub open spec fn opened_for(m0: TileMap, m1: TileMap, rooms: Seq<Rect>, r: Rect) -> bool {
    forall|x: int, y: int|
        in_map(x, y) ==> #[trigger] m1.tile_at(x, y) == m0.tile_at(x, y) || (m1.tile_at(x, y)
            == floor_tile() && (in_room(r, x, y) || (rooms.len() > 0 && on_l_path(
            rooms.last(),
            r,
            x,
            y,
        ))))
}

proof fn lemma_carved_extend(m0: TileMap, m1: TileMap, rooms: Seq<Rect>, r: Rect)
    requires
        carved(m0, rooms),
        opened_for(m0, m1, rooms, r),
    ensures
        carved(m1, rooms.push(r)),
{
    let rs = rooms.push(r);
    assert forall|x: int, y: int| in_map(x, y) implies #[trigger] m1.tile_at(x, y) == wall_tile()
        || (m1.tile_at(x, y) == floor_tile() && (in_some_room(rs, x, y) || on_corridor(rs, x, y))) by {
        if m1.tile_at(x, y) == m0.tile_at(x, y) && m0.tile_at(x, y) != wall_tile() {
            if in_some_room(rooms, x, y) {
                let i = choose|i: int| 0 <= i < rooms.len() && in_room(#[trigger] rooms[i], x, y);
                assert(rs[i] == rooms[i]);
            } else {
                let i = choose|i: int| 0 < i < rooms.len() && on_l_path(rooms[i - 1], #[trigger] rooms[i], x, y);
                assert(rs[i] == rooms[i] && rs[i - 1] == rooms[i - 1]);
            }
        } else if m1.tile_at(x, y) != m0.tile_at(x, y) {
            if in_room(r, x, y) {
                assert(rs[rooms.len() as int] == r);
            } else {
                assert(rs[rooms.len() as int] == r && rs[rooms.len() - 1] == rooms.last());
            }
        }
    }
}

proof fn lemma_border_walled(map: TileMap, rooms: Seq<Rect>)
    requires
        carved(map, rooms),
        forall|i: int| 0 <= i < rooms.len() ==> room_shape_ok(#[trigger] rooms[i]),
    ensures
        border_walled(map),
{
    assert forall|x: int, y: int|
        in_map(x, y) && (x == 0 || y == 0 || x == MAP_WIDTH - 1 || y == MAP_HEIGHT - 1) implies
        #[trigger] map.tile_at(x, y) == wall_tile() by {
        if map.tile_at(x, y) != wall_tile() {
            if in_some_room(rooms, x, y) {
                let i = choose|i: int| 0 <= i < rooms.len() && in_room(#[trigger] rooms[i], x, y);
                assert(room_shape_ok(rooms[i]));
            } else {
                let i = choose|i: int| 0 < i < rooms.len() && on_l_path(rooms[i - 1], #[trigger] rooms[i], x, y);
                assert(room_shape_ok(rooms[i]) && room_shape_ok(rooms[i - 1]));
            }
        }
    }
}

/// What `make_map` produced from a world whose player was `player0`: the grid, at most
/// `MAX_ROOMS` rooms, walls everywhere but inside the rooms and on their corridors, the
/// player at the centre of the first room, monsters and items of the level inside the
/// rooms, and the stairs at the centre of the last room.
pub open spec fn generated(
    map: TileMap,
    rooms: Seq<Rect>,
    player0: Object,
    objects: Seq<Object>,
    level: u32,
) -> bool {
    &&& map.wf()
    &&& 1 <= rooms.len() <= MAX_ROOMS
    &&& rooms_drawn(rooms)
    &&& rooms_ok(map, rooms)
    &&& carved(map, rooms)
    &&& border_walled(map)
    &&& objects.len() >= 2
    &&& objects[0] == Object { x: rooms[0].center_x() as i32, y: rooms[0].center_y() as i32, ..player0 }
    &&& is_stairs(objects.last(), rooms.last().center_x(), rooms.last().center_y())
    &&& forall|k: int|
        1 <= k < objects.len() - 1 ==> (monster_allowed(level, #[trigger] objects[k])
            || item_allowed(level, objects[k])) && in_some_room(rooms, objects[k].x as int, objects[k].y as int)
}

proof fn lemma_opens_keep(m0: TileMap, m1: TileMap, rooms: Seq<Rect>)
    requires
        m0.wf(),
        only_opens(m0, m1),
        rooms_ok(m0, rooms),
    ensures
        rooms_ok(m1, rooms),
{
    assert forall|i: int| 0 <= i < rooms.len() implies room_open(m1, #[trigger] rooms[i]) by {
        assert(room_shape_ok(rooms[i]));
        assert(room_open(m0, rooms[i]));
        assert forall|x: int, y: int| in_room(rooms[i], x, y) implies #[trigger] m1.tile_at(x, y)
            == floor_tile() by {
            assert(m0.tile_at(x, y) == floor_tile());
            assert(in_map(x, y));
        }
    }
    assert forall|i: int| 0 < i < rooms.len() implies corridor_open(m1, rooms[i - 1], #[trigger] rooms[i]) by {
        let a = rooms[i - 1];
        let b = rooms[i];
        assert(room_shape_ok(a) && room_shape_ok(b));
        assert(corridor_open(m0, a, b));
        lemma_row_keep(m0, m1, a.center_x(), b.center_x(), a.center_y());
        lemma_row_keep(m0, m1, a.center_x(), b.center_x(), b.center_y());
        lemma_col_keep(m0, m1, a.center_y(), b.center_y(), a.center_x());
        lemma_col_keep(m0, m1, a.center_y(), b.center_y(), b.center_x());
    }
}

proof fn lemma_row_keep(m0: TileMap, m1: TileMap, x1: int, x2: int, y: int)
    requires
        only_opens(m0, m1),
        in_map(x1, y),
        in_map(x2, y),
    ensures
        row_open(m0, x1, x2, y) ==> row_open(m1, x1, x2, y),
{
    if row_open(m0, x1, x2, y) {
        assert forall|x: int| min(x1, x2) <= x <= max(x1, x2) implies #[trigger] m1.tile_at(x, y)
            == floor_tile() by {
            assert(m0.tile_at(x, y) == floor_tile());
            assert(in_map(x, y));
        }
    }
}

proof fn lemma_col_keep(m0: TileMap, m1: TileMap, y1: int, y2: int, x: int)
    requires
        only_opens(m0, m1),
        in_map(x, y1),
        in_map(x, y2),
    ensures
        col_open(m0, y1, y2, x) ==> col_open(m1, y1, y2, x),
{
    if col_open(m0, y1, y2, x) {
        assert forall|y: int| min(y1, y2) <= y <= max(y1, y2) implies #[trigger] m1.tile_at(x, y)
            == floor_tile() by {
            assert(m0.tile_at(x, y) == floor_tile());
            assert(in_map(x, y));
        }
    }
}

proof fn lemma_room_keep(m0: TileMap, m1: TileMap, r: Rect)
    requires
        only_opens(m0, m1),
        room_shape_ok(r),
        room_open(m0, r),
    ensures
        room_open(m1, r),
{
    assert forall|x: int, y: int| in_room(r, x, y) implies #[trigger] m1.tile_at(x, y) == floor_tile() by {
        assert(m0.tile_at(x, y) == floor_tile());
        assert(in_map(x, y));
    }
}

/// Whether `new_room` intersects one of `rooms`.
fn intersects_any(new_room: &Rect, rooms: &Vec<Rect>) -> (r: bool)
    ensures
        r == exists|j: int| 0 <= j < rooms@.len() && rects_intersect(*new_room, #[trigger] rooms@[j]),
{
    let mut i: usize = 0;
    while i < rooms.len()
        invariant
            i <= rooms@.len(),
            forall|j: int| 0 <= j < i ==> !rects_intersect(*new_room, #[trigger] rooms@[j]),
        decreases rooms@.len() - i,
    {
        if new_room.intersects_with(&rooms[i]) {
            return true;
        }
        i = i + 1;
    }
    false
}

/// The rooms kept from the candidates `cands`, in order: each candidate that intersects no
/// room kept before it.
pub open spec fn accepted_rooms(cands: Seq<Rect>) -> Seq<Rect>
    decreases cands.len(),
{
    if cands.len() == 0 {
        Seq::empty()
    } else {
        let prev = accepted_rooms(cands.drop_last());
        if exists|j: int| 0 <= j < prev.len() && rects_intersect(cands.last(), #[trigger] prev[j]) {
            prev
        } else {
            prev.push(cands.last())
        }
    }
}

/// Whether `rooms` is what `MAX_ROOMS` well-shaped candidates leave after selection.
pub open spec fn rooms_drawn(rooms: Seq<Rect>) -> bool {
    exists|cands: Seq<Rect>|
        {
            &&& #[trigger] accepted_rooms(cands) == rooms
            &&& cands.len() == MAX_ROOMS
            &&& forall|i: int| 0 <= i < cands.len() ==> room_shape_ok(#[trigger] cands[i])
        }
}

/// Keeps, in order, each candidate room that intersects no room kept before it.
pub fn select_rooms(cands: &Vec<Rect>) -> (r: Vec<Rect>)
    ensures
        r@ == accepted_rooms(cands@),
        cands@.len() > 0 ==> r@.len() > 0,
        r@.len() <= cands@.len(),
        forall|i: int, j: int| 0 <= i < j < r@.len() ==> !rects_intersect(#[trigger] r@[i], #[trigger] r@[j]),
        forall|i: int| 0 <= i < r@.len() ==> exists|k: int| 0 <= k < cands@.len() && #[trigger] r@[i] == cands@[k],
{
    let mut rooms: Vec<Rect> = Vec::new();
    let mut i: usize = 0;
    while i < cands.len()
        invariant
            i <= cands@.len(),
            rooms@ == accepted_rooms(cands@.subrange(0, i as int)),
            i > 0 ==> rooms@.len() > 0,
            rooms@.len() <= i,
            forall|a: int, b: int| 0 <= a < b < rooms@.len() ==> !rects_intersect(#[trigger] rooms@[a], #[trigger] rooms@[b]),
            forall|a: int| 0 <= a < rooms@.len() ==> exists|k: int| 0 <= k < cands@.len() && #[trigger] rooms@[a] == cands@[k],
        decreases cands@.len() - i,
    {
        let c = cands[i];
        proof {
            assert(cands@.subrange(0, i + 1).drop_last() =~= cands@.subrange(0, i as int));
        }
        let failed = intersects_any(&c, &rooms);
        if !failed {
            let ghost before = rooms@;
            rooms.push(c);
            proof {
                assert forall|a: int| 0 <= a < rooms@.len() implies exists|k: int| 0 <= k < cands@.len() && #[trigger] rooms@[a] == cands@[k] by {
                    if a < before.len() {
                        assert(rooms@[a] == before[a]);
                    } else {
                        assert(rooms@[a] == cands@[i as int]);
                    }
                }
            }
        }
        i = i + 1;
    }
    proof {
        assert(cands@.subrange(0, i as int) =~= cands@);
    }
    rooms
}

/// A room of random size within the room limits at a random place inside the grid.
fn draw_room() -> (r: Rect)
    ensures
        room_shape_ok(r),
{
    let w = random_range(ROOM_MIN_SIZE, ROOM_MAX_SIZE + 1);
    let h = random_range(ROOM_MIN_SIZE, ROOM_MAX_SIZE + 1);
    let x = random_range(0, MAP_WIDTH - w);
    let y = random_range(0, MAP_HEIGHT - h);
    Rect::new(x, y, w, h)
}

/// Builds a fresh level: keeps only the player, draws `MAX_ROOMS` random candidate rooms
/// and carves those `select_rooms` keeps, joins each to the previous one by a corridor, populates them, puts the
/// player in the first room and the stairs in the last.
#[verifier::spinoff_prover]
#[verifier::rlimit(100)]
pub fn make_map(objects: &mut Vec<Object>, level: u32) -> (map: TileMap)
    requires
        old(objects)@.len() >= 1,
    ensures
        exists|rooms: Seq<Rect>|
            #[trigger] generated(map, rooms, old(objects)@[0], final(objects)@, level),
{
    let mut map = TileMap::new();
    objects.truncate(1);
    let ghost player0 = old(objects)@[0];
    let mut cands: Vec<Rect> = Vec::new();
    let mut attempt: i32 = 0;
    while attempt < MAX_ROOMS
        invariant
            0 <= attempt <= MAX_ROOMS,
            cands@.len() == attempt,
            forall|k: int| 0 <= k < cands@.len() ==> room_shape_ok(#[trigger] cands@[k]),
        decreases MAX_ROOMS - attempt,
    {
        cands.push(draw_room());
        attempt = attempt + 1;
    }
    let selected = select_rooms(&cands);
    let mut rooms: Vec<Rect> = Vec::new();
    let mut i: usize = 0;
    while i < selected.len()
        invariant
            map.wf(),
            cands@.len() == MAX_ROOMS,
            forall|k: int| 0 <= k < cands@.len() ==> room_shape_ok(#[trigger] cands@[k]),
            selected@ == accepted_rooms(cands@),
            selected@.len() > 0,
            selected@.len() <= MAX_ROOMS,
            forall|a: int, b: int| 0 <= a < b < selected@.len() ==> !rects_intersect(#[trigger] selected@[a], #[trigger] selected@[b]),
            forall|a: int| 0 <= a < selected@.len() ==> exists|k: int| 0 <= k < cands@.len() && #[trigger] selected@[a] == cands@[k],
            i <= selected@.len(),
            rooms@ == selected@.subrange(0, i as int),
            rooms_ok(map, rooms@),
            carved(map, rooms@),
            objects@.len() >= 1,
            rooms@.len() == 0 ==> objects@.len() == 1 && objects@[0] == player0,
            rooms@.len() > 0 ==> objects@[0] == (Object {
                x: rooms@[0].center_x() as i32,
                y: rooms@[0].center_y() as i32,
                ..player0
            }),
            forall|k: int|
                1 <= k < objects@.len() ==> (monster_allowed(level, #[trigger] objects@[k])
                    || item_allowed(level, objects@[k])) && in_some_room(
                    rooms@,
                    objects@[k].x as int,
                    objects@[k].y as int,
                ),
        decreases selected@.len() - i,
    {
        let new_room = selected[i];
        proof {
            let k = choose|k: int| 0 <= k < cands@.len() && #[trigger] selected@[i as int] == cands@[k];
            assert(room_shape_ok(cands@[k]));
            assert forall|j: int| 0 <= j < rooms@.len() implies !rects_intersect(#[trigger] rooms@[j], new_room) by {
                assert(rooms@[j] == selected@[j]);
            }
        }
        {
            let ghost m0 = map;
            let ghost o0 = objects@;
            create_room(&new_room, &mut map);
            proof {
                lemma_opens_keep(m0, map, rooms@);
                assert(opened_for(m0, map, rooms@, new_room));
            }
            place_objects(&new_room, &map, objects, level);
            proof {
                let nm = choose|nm: int| #[trigger] populated(map, new_room, level, o0, objects@, nm);
                assert forall|k: int| 1 <= k < objects@.len() implies (monster_allowed(
                    level,
                    #[trigger] objects@[k],
                ) || item_allowed(level, objects@[k])) && in_some_room(
                    rooms@.push(new_room),
                    objects@[k].x as int,
                    objects@[k].y as int,
                ) by {
                    if k < o0.len() {
                        assert(objects@[k] == objects@.subrange(0, o0.len() as int)[k]);
                        let i = choose|i: int|
                            0 <= i < rooms@.len() && in_room(#[trigger] rooms@[i], o0[k].x as int, o0[k].y as int);
                        assert(rooms@.push(new_room)[i] == rooms@[i]);
                    } else {
                        assert(placed(map, new_room, objects@.subrange(0, k), objects@[k]));
                        assert(rooms@.push(new_room)[rooms@.len() as int] == new_room);
                    }
                }
                assert(objects@[0] == objects@.subrange(0, o0.len() as int)[0]);
            }
            let (new_x, new_y) = new_room.center();
            if rooms.len() == 0 {
                objects[PLAYER].set_pos(new_x, new_y);
            } else {
                let (prev_x, prev_y) = rooms[rooms.len() - 1].center();
                let ghost prev = rooms@[rooms@.len() - 1];
                proof {
                    assert(room_shape_ok(prev));
                }
                let ghost m1 = map;
                if coin_flip() {
                    create_h_tunnel(prev_x, new_x, prev_y, &mut map);
                    let ghost m2 = map;
                    proof {
                        assert(prev == rooms@.last());
                        assert(opened_for(m0, m2, rooms@, new_room));
                    }
                    create_v_tunnel(prev_y, new_y, new_x, &mut map);
                    proof {
                        assert(opened_for(m0, map, rooms@, new_room));
                        lemma_row_keep(m2, map, prev_x as int, new_x as int, prev_y as int);
                        lemma_opens_keep(m1, m2, rooms@);
                        lemma_opens_keep(m2, map, rooms@);
                        lemma_room_keep(m1, m2, new_room);
                        lemma_room_keep(m2, map, new_room);
                    }
                } else {
                    create_v_tunnel(prev_y, new_y, prev_x, &mut map);
                    let ghost m2 = map;
                    proof {
                        assert(prev == rooms@.last());
                        assert(opened_for(m0, m2, rooms@, new_room));
                    }
                    create_h_tunnel(prev_x, new_x, new_y, &mut map);
                    proof {
                        assert(opened_for(m0, map, rooms@, new_room));
                        lemma_col_keep(m2, map, prev_y as int, new_y as int, prev_x as int);
                        lemma_opens_keep(m1, m2, rooms@);
                        lemma_opens_keep(m2, map, rooms@);
                        lemma_room_keep(m1, m2, new_room);
                        lemma_room_keep(m2, map, new_room);
                    }
                }
            }
            let ghost before = rooms@;
            rooms.push(new_room);
            proof {
                lemma_carved_extend(m0, map, before, new_room);
                assert(rooms@[rooms@.len() - 1] == new_room);
                assert forall|i: int| 0 <= i < rooms@.len() - 1 implies rooms@[i] == before[i] by {}
                assert forall|k: int| 1 <= k < objects@.len() implies in_some_room(
                    rooms@,
                    objects@[k].x as int,
                    objects@[k].y as int,
                ) by {
                    assert(rooms@ == before.push(new_room));
                }
            }
        }
        proof {
            assert(rooms@ =~= selected@.subrange(0, i + 1));
        }
        i = i + 1;
    }
    proof {
        assert(rooms@ =~= selected@);
        assert(rooms_drawn(rooms@)) by {
            assert(accepted_rooms(cands@) == rooms@);
        }
    }
    let (last_room_x, last_room_y) = rooms[rooms.len() - 1].center();
    let mut stairs = Object::new(last_room_x, last_room_y, '<', "stairs", Color::White, false);
    stairs.always_visible = true;
    let ghost before = objects@;
    objects.push(stairs);
    proof {
        assert forall|k: int| 1 <= k < objects@.len() - 1 implies (monster_allowed(
            level,
            #[trigger] objects@[k],
        ) || item_allowed(level, objects@[k])) && in_some_room(
            rooms@,
            objects@[k].x as int,
            objects@[k].y as int,
        ) by {
            assert(objects@[k] == before[k]);
        }
        lemma_border_walled(map, rooms@);
        assert(generated(map, rooms@, player0, objects@, level));
    }
    map
}

/// Whether `a` and `b` are side by side.
pub open spec fn adjacent(a: (int, int), b: (int, int)) -> bool {
    (a.0 == b.0 && (a.1 - b.1 == 1 || b.1 - a.1 == 1)) || (a.1 == b.1 && (a.0 - b.0 == 1 || b.0
        - a.0 == 1))
}

/// A walk over unblocked cells of the grid, one side-by-side step at a time.
pub open spec fn path_ok(map: TileMap, p: Seq<(int, int)>) -> bool {
    &&& p.len() >= 1
    &&& forall|i: int|
        0 <= i < p.len() ==> in_map((#[trigger] p[i]).0, p[i].1) && !map.tile_at(p[i].0, p[i].1).blocked
    &&& forall|i: int| 0 <= i < p.len() - 1 ==> adjacent(#[trigger] p[i], p[i + 1])
}

/// Whether a walk over unblocked cells leads from `(ax, ay)` to `(bx, by)`.
pub open spec fn reachable(map: TileMap, ax: int, ay: int, bx: int, by: int) -> bool {
    exists|p: Seq<(int, int)>| #[trigger] path_ok(map, p) && p[0] == (ax, ay) && p.last() == (bx, by)
}

pub open spec fn row_path(x1: int, x2: int, y: int) -> Seq<(int, int)> {
    if x1 <= x2 {
        Seq::new((x2 - x1 + 1) as nat, |k: int| (x1 + k, y))
    } else {
        Seq::new((x1 - x2 + 1) as nat, |k: int| (x1 - k, y))
    }
}

pub open spec fn col_path(y1: int, y2: int, x: int) -> Seq<(int, int)> {
    if y1 <= y2 {
        Seq::new((y2 - y1 + 1) as nat, |k: int| (x, y1 + k))
    } else {
        Seq::new((y1 - y2 + 1) as nat, |k: int| (x, y1 - k))
    }
}

proof fn lemma_row_reach(map: TileMap, x1: int, x2: int, y: int)
    requires
        in_map(x1, y),
        in_map(x2, y),
        row_open(map, x1, x2, y),
    ensures
        reachable(map, x1, y, x2, y),
{
    let p = row_path(x1, x2, y);
    assert forall|i: int| 0 <= i < p.len() implies in_map((#[trigger] p[i]).0, p[i].1)
        && !map.tile_at(p[i].0, p[i].1).blocked by {
        assert(map.tile_at(p[i].0, y) == floor_tile());
    }
    assert(path_ok(map, p));
}

proof fn lemma_col_reach(map: TileMap, y1: int, y2: int, x: int)
    requires
        in_map(x, y1),
        in_map(x, y2),
        col_open(map, y1, y2, x),
    ensures
        reachable(map, x, y1, x, y2),
{
    let p = col_path(y1, y2, x);
    assert forall|i: int| 0 <= i < p.len() implies in_map((#[trigger] p[i]).0, p[i].1)
        && !map.tile_at(p[i].0, p[i].1).blocked by {
        assert(map.tile_at(x, p[i].1) == floor_tile());
    }
    assert(path_ok(map, p));
}

/// Walks chain: a walk from `a` to `b` and one from `b` to `c` make one from `a` to `c`.
pub proof fn lemma_reach_trans(map: TileMap, ax: int, ay: int, bx: int, by: int, cx: int, cy: int)
    requires
        reachable(map, ax, ay, bx, by),
        reachable(map, bx, by, cx, cy),
    ensures
        reachable(map, ax, ay, cx, cy),
{
    let p = choose|p: Seq<(int, int)>| #[trigger] path_ok(map, p) && p[0] == (ax, ay) && p.last() == (bx, by);
    let q = choose|q: Seq<(int, int)>| #[trigger] path_ok(map, q) && q[0] == (bx, by) && q.last() == (cx, cy);
    let r = p + q.drop_first();
    assert forall|i: int| 0 <= i < r.len() implies in_map((#[trigger] r[i]).0, r[i].1)
        && !map.tile_at(r[i].0, r[i].1).blocked by {
        if i >= p.len() {
            assert(r[i] == q[i - p.len() + 1]);
        }
    }
    assert forall|i: int| 0 <= i < r.len() - 1 implies adjacent(#[trigger] r[i], r[i + 1]) by {
        if i < p.len() - 1 {
        } else if i == p.len() - 1 {
            assert(r[i + 1] == q[1]);
            assert(adjacent(q[0], q[1]));
        } else {
            assert(r[i] == q[i - p.len() + 1]);
            assert(r[i + 1] == q[i - p.len() + 2]);
        }
    }
    if q.len() == 1 {
        assert(r =~= p);
    }
    assert(path_ok(map, r));
}

proof fn lemma_corridor_reach(map: TileMap, a: Rect, b: Rect)
    requires
        room_shape_ok(a),
        room_shape_ok(b),
        corridor_open(map, a, b),
    ensures
        reachable(map, a.center_x(), a.center_y(), b.center_x(), b.center_y()),
{
    let (ax, ay, bx, by) = (a.center_x(), a.center_y(), b.center_x(), b.center_y());
    if row_open(map, ax, bx, ay) && col_open(map, ay, by, bx) {
        lemma_row_reach(map, ax, bx, ay);
        lemma_col_reach(map, ay, by, bx);
        lemma_reach_trans(map, ax, ay, bx, ay, bx, by);
    } else {
        lemma_col_reach(map, ay, by, ax);
        lemma_row_reach(map, ax, bx, by);
        lemma_reach_trans(map, ax, ay, ax, by, bx, by);
    }
}

/// Every cell inside every accepted room can be walked to from the centre of the first room
/// (where the player starts) over unblocked cells.
pub proof fn lemma_rooms_connected(map: TileMap, rooms: Seq<Rect>, i: int, x: int, y: int)
    requires
        rooms_ok(map, rooms),
        0 <= i < rooms.len(),
        in_room(rooms[i], x, y),
    ensures
        reachable(map, rooms[0].center_x(), rooms[0].center_y(), x, y),
    decreases i,
{
    let r = rooms[i];
    assert(room_shape_ok(r) && room_open(map, r));
    let (cx, cy) = (r.center_x(), r.center_y());
    assert forall|a: int| min(cx, x) <= a <= max(cx, x) implies #[trigger] map.tile_at(a, cy)
        == floor_tile() by {
        assert(in_room(r, a, cy));
    }
    assert forall|b: int| min(cy, y) <= b <= max(cy, y) implies #[trigger] map.tile_at(x, b)
        == floor_tile() by {
        assert(in_room(r, x, b));
    }
    lemma_row_reach(map, cx, x, cy);
    lemma_col_reach(map, cy, y, x);
    lemma_reach_trans(map, cx, cy, x, cy, x, y);
    if i == 0 {
    } else {
        let prev = rooms[i - 1];
        assert(room_shape_ok(prev));
        assert(in_room(prev, prev.center_x(), prev.center_y()));
        lemma_rooms_connected(map, rooms, i - 1, prev.center_x(), prev.center_y());
        lemma_corridor_reach(map, prev, r);
        lemma_reach_trans(map, rooms[0].center_x(), rooms[0].center_y(), prev.center_x(), prev.center_y(), cx, cy);
        lemma_reach_trans(map, rooms[0].center_x(), rooms[0].center_y(), cx, cy, x, y);
    }
}

} // verus!
