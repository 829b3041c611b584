//! Entities, combat, movement and monster behaviour.

use crate::dice::random_range;
use crate::fov::Fov;
use crate::game::Game;
use crate::item::{slot_text, Equipment, Item};
use crate::log::{decimal_text, int_text, log_add, Color, Messages};
use crate::map::{blocked_at, in_map, is_blocked, TileMap, MAP_HEIGHT, MAP_WIDTH};
use crate::PLAYER;
use vstd::prelude::*;

verus! {

/// Largest magnitude of a fighter's numbers and of an equipment bonus that the engine
/// accepts; within it no single action can overflow.
pub const STAT_LIMIT: i32 = 1_000_000;

/// Most objects the world holds.
pub const MAX_OBJECTS: usize = 1000;

/// Most items the inventory holds.
pub const MAX_INVENTORY: usize = 26;

/// Anything in the world: the player, monsters, items and the stairs.
pub struct Object {
    pub x: i32,
    pub y: i32,
    pub char: char,
    pub color: Color,
    pub name: String,
    pub blocks: bool,
    pub alive: bool,
    pub fighter: Option<Fighter>,
    pub ai: Option<Ai>,
    pub item: Option<Item>,
    pub equipment: Option<Equipment>,
    pub always_visible: bool,
}

/// What the player's action amounted to.
#[derive(Clone, Copy, Debug, PartialEq, Eq, Structural)]
pub enum PlayerAction {
    TookTurn,
    DidntTakeTurn,
    Exit,
}

/// Combat numbers of an actor.
#[derive(Clone, Copy, Debug, PartialEq, Eq, Structural)]
pub struct Fighter {
    pub hp: i32,
    pub base_max_hp: i32,
    pub base_defense: i32,
    pub base_power: i32,
    pub on_death: DeathCallback,
    pub xp: i32,
}

/// Which death handling applies to a fighter.
#[derive(Clone, Copy, Debug, PartialEq, Eq, Structural)]
pub enum DeathCallback {
    Player,
    Monster,
}

/// Monster behaviour: chase and strike, or stagger for a while and then resume the
/// previous behaviour.
#[derive(Debug, PartialEq, Eq)]
pub enum Ai {
    Basic,
    Confused { previous_ai: Box<Ai>, num_turns: i32 },
}

/// The three effective stats.
pub enum Stat {
    Power,
    Defense,
    MaxHp,
}

pub open spec fn in_limit(v: int) -> bool {
    -STAT_LIMIT <= v <= STAT_LIMIT
}

pub open spec fn fighter_in_limits(f: Fighter) -> bool {
    in_limit(f.hp as int) && in_limit(f.base_max_hp as int) && in_limit(f.base_defense as int)
        && in_limit(f.base_power as int) && in_limit(f.xp as int)
}

pub open spec fn object_in_limits(o: Object) -> bool {
    &&& (o.fighter is Some ==> fighter_in_limits(o.fighter->0))
    &&& (o.equipment is Some ==> {
        let e = o.equipment->0;
        in_limit(e.power_bonus as int) && in_limit(e.defense_bonus as int) && in_limit(
            e.max_hp_bonus as int,
        )
    })
}

/// An inventory the engine can work with: at most `MAX_INVENTORY` items, each within limits.
pub open spec fn inventory_ok(inv: Seq<Object>) -> bool {
    inv.len() <= MAX_INVENTORY && forall|i: int|
        0 <= i < inv.len() ==> object_in_limits(#[trigger] inv[i])
}

pub open spec fn player_name() -> Seq<char> {
    "player"@
}

/// What an item adds to `stat` when equipped.
pub open spec fn item_bonus(o: Object, stat: Stat) -> int {
    match o.equipment {
        Some(e) => if e.equipped {
            match stat {
                Stat::Power => e.power_bonus as int,
                Stat::Defense => e.defense_bonus as int,
                Stat::MaxHp => e.max_hp_bonus as int,
            }
        } else {
            0
        },
        None => 0,
    }
}

/// The sum of the bonuses to `stat` of all equipped items.
pub open spec fn bonus_total(inv: Seq<Object>, stat: Stat) -> int
    decreases inv.len(),
{
    if inv.len() == 0 {
        0
    } else {
        bonus_total(inv.drop_last(), stat) + item_bonus(inv.last(), stat)
    }
}

pub open spec fn base_stat(o: Object, stat: Stat) -> int {
    match o.fighter {
        Some(f) => match stat {
            Stat::Power => f.base_power as int,
            Stat::Defense => f.base_defense as int,
            Stat::MaxHp => f.base_max_hp as int,
        },
        None => 0,
    }
}

/// The base value plus, for the player, the bonuses of every equipped inventory item.
pub open spec fn effective(o: Object, inv: Seq<Object>, stat: Stat) -> int {
    base_stat(o, stat) + if o.name@ == player_name() {
        bonus_total(inv, stat)
    } else {
        0
    }
}

pub proof fn lemma_bonus_bound(inv: Seq<Object>, stat: Stat)
    requires
        forall|i: int| 0 <= i < inv.len() ==> object_in_limits(#[trigger] inv[i]),
    ensures
        -(inv.len() * STAT_LIMIT) <= bonus_total(inv, stat) <= inv.len() * STAT_LIMIT,
    decreases inv.len(),
{
    if inv.len() > 0 {
        assert(object_in_limits(inv[inv.len() - 1]));
        lemma_bonus_bound(inv.drop_last(), stat);
    }
}

/// Replacing one item changes a bonus total by the difference of the two items' bonuses.
pub proof fn lemma_bonus_update(inv: Seq<Object>, i: int, x: Object, stat: Stat)
    requires
        0 <= i < inv.len(),
    ensures
        bonus_total(inv.update(i, x), stat) == bonus_total(inv, stat) - item_bonus(inv[i], stat)
            + item_bonus(x, stat),
    decreases inv.len(),
{
    let u = inv.update(i, x);
    if i == inv.len() - 1 {
        assert(u.drop_last() =~= inv.drop_last());
    } else {
        assert(u.drop_last() =~= inv.drop_last().update(i, x));
        lemma_bonus_update(inv.drop_last(), i, x, stat);
    }
}

pub proof fn lemma_effective_bound(o: Object, inv: Seq<Object>, stat: Stat)
    requires
        object_in_limits(o),
        inventory_ok(inv),
    ensures
        -27 * STAT_LIMIT <= effective(o, inv, stat) <= 27 * STAT_LIMIT,
{
    lemma_bonus_bound(inv, stat);
    assert(inv.len() * STAT_LIMIT <= 26 * STAT_LIMIT) by (nonlinear_arith)
        requires
            inv.len() <= 26,
    ;
}

pub open spec fn dist_sq(ax: int, ay: int, bx: int, by: int) -> int {
    (bx - ax) * (bx - ax) + (by - ay) * (by - ay)
}

// Messages.
pub open spec fn died_text() -> Seq<char> {
    "You died!"@
}

pub open spec fn monster_dead_text(name: Seq<char>, xp: int) -> Seq<char> {
    name + " is dead! You gain "@ + decimal_text(xp) + " experience points."@
}

pub open spec fn attack_text(a: Seq<char>, t: Seq<char>, damage: int) -> Seq<char> {
    a + " attacks "@ + t + " for "@ + decimal_text(damage) + " hit points."@
}

pub open spec fn no_effect_text(a: Seq<char>, t: Seq<char>) -> Seq<char> {
    a + " attacks "@ + t + " but it has no effect!"@
}

pub open spec fn equipped_text(name: Seq<char>, slot: Seq<char>) -> Seq<char> {
    "Equipped "@ + name + " on "@ + slot + "."@
}

pub open spec fn dequipped_text(name: Seq<char>, slot: Seq<char>) -> Seq<char> {
    "Dequipped "@ + name + " from "@ + slot + "."@
}

pub open spec fn cannot_text(on: bool, name: Seq<char>, not_item: bool) -> Seq<char> {
    (if on {
        "Can't equip "@
    } else {
        "Can't dequip "@
    }) + name + if not_item {
        " because it's not an Item."@
    } else {
        " because it's not an Equipment."@
    }
}

/// `new` is `old` after its death handling, for a fighter `f` left with `hp` hit points.
pub open spec fn died(old: Object, new: Object, f: Fighter, hp: int) -> bool {
    &&& new.x == old.x && new.y == old.y
    &&& new.char == '%' && new.color == Color::DarkRed
    &&& !new.alive
    &&& new.item == old.item && new.equipment == old.equipment
    &&& new.always_visible == old.always_visible
    &&& match f.on_death {
        DeathCallback::Player => {
            &&& new.fighter == Some(Fighter { hp: hp as i32, ..f })
            &&& new.name == old.name
            &&& new.blocks == old.blocks
            &&& new.ai == old.ai
        },
        DeathCallback::Monster => {
            &&& new.fighter is None
            &&& new.name@ == "remains of "@ + old.name@
            &&& !new.blocks
            &&& new.ai is None
        },
    }
}

/// The log after the death of `o`, whose fighter was `f`.
pub open spec fn death_log(log: Seq<(Seq<char>, Color)>, o: Object, f: Fighter) -> Seq<
    (Seq<char>, Color),
> {
    match f.on_death {
        DeathCallback::Player => log_add(log, died_text(), Color::Red),
        DeathCallback::Monster => log_add(log, monster_dead_text(o.name@, f.xp as int), Color::Orange),
    }
}

/// `take_damage(amount)` turned `old` into `new` and `log0` into `log1`, returning `r`.
pub open spec fn took_damage(
    old: Object,
    new: Object,
    amount: int,
    log0: Seq<(Seq<char>, Color)>,
    log1: Seq<(Seq<char>, Color)>,
    r: Option<i32>,
) -> bool {
    match old.fighter {
        None => new == old && log1 == log0 && r is None,
        Some(f) => {
            let hp = if amount > 0 { f.hp - amount } else { f.hp as int };
            if hp <= 0 && old.alive {
                &&& r == Some(f.xp)
                &&& died(old, new, f, hp)
                &&& log1 == death_log(log0, old, f)
            } else {
                &&& r is None
                &&& new == Object { fighter: Some(Fighter { hp: hp as i32, ..f }), ..old }
                &&& log1 == log0
            }
        },
    }
}

/// `attack` by `a0` on `t0` left them as `a1` and `t1` and the log as `log1`.
pub open spec fn attacked(
    a0: Object,
    a1: Object,
    t0: Object,
    t1: Object,
    inv: Seq<Object>,
    log0: Seq<(Seq<char>, Color)>,
    log1: Seq<(Seq<char>, Color)>,
) -> bool {
    let damage = effective(a0, inv, Stat::Power) - effective(t0, inv, Stat::Defense);
    if damage > 0 {
        let log_mid = log_add(log0, attack_text(a0.name@, t0.name@, damage), Color::Red);
        exists|r: Option<i32>|
            {
                &&& took_damage(t0, t1, damage, log_mid, log1, r)
                &&& match r {
                    Some(xp) => a1 == Object {
                        fighter: Some(Fighter { xp: (a0.fighter->0.xp + xp) as i32, ..a0.fighter->0 }),
                        ..a0
                    },
                    None => a1 == a0,
                }
            }
    } else {
        &&& a1 == a0
        &&& t1 == t0
        &&& log1 == log_add(log0, no_effect_text(a0.name@, t0.name@), Color::White)
    }
}

pub open spec fn healed_hp(hp: int, amount: int, max: int) -> int {
    if hp + amount > max {
        max
    } else {
        hp + amount
    }
}

/// `equip` (when `on`) or `unequip` (otherwise) turned `old` into `new` and `log0` into `log1`.
pub open spec fn equip_effect(
    old: Object,
    new: Object,
    log0: Seq<(Seq<char>, Color)>,
    log1: Seq<(Seq<char>, Color)>,
    on: bool,
) -> bool {
    if old.item is None {
        new == old && log1 == log_add(log0, cannot_text(on, old.name@, true), Color::Red)
    } else {
        match old.equipment {
            Some(e) => if e.equipped != on {
                &&& new == Object { equipment: Some(Equipment { equipped: on, ..e }), ..old }
                &&& log1 == if on {
                    log_add(log0, equipped_text(old.name@, slot_text(e.slot)), Color::LightGreen)
                } else {
                    log_add(log0, dequipped_text(old.name@, slot_text(e.slot)), Color::LightYellow)
                }
            } else {
                new == old && log1 == log0
            },
            None => new == old && log1 == log_add(
                log0,
                cannot_text(on, old.name@, false),
                Color::Red,
            ),
        }
    }
}

/// A world the engine can work with: the player slot exists, and every object lies on the
/// grid, is within limits, and has a fighter when it has a behaviour.
pub open spec fn objects_ok(objects: Seq<Object>) -> bool {
    objects.len() > 0 && objects.len() <= MAX_OBJECTS && forall|i: int|
        0 <= i < objects.len() ==> {
            &&& object_in_limits(#[trigger] objects[i])
            &&& in_map(objects[i].x as int, objects[i].y as int)
            &&& (objects[i].ai is Some ==> objects[i].fighter is Some)
        }
}

/// The objects after object `id` tried to step by `(dx, dy)`: it moves when the destination
/// lies on the grid and is not blocked.
pub open spec fn moved(objects: Seq<Object>, map: TileMap, id: int, dx: int, dy: int) -> Seq<
    Object,
> {
    let nx = objects[id].x + dx;
    let ny = objects[id].y + dy;
    if in_map(nx, ny) && !blocked_at(map, objects, nx, ny) {
        objects.update(id, Object { x: nx as i32, y: ny as i32, ..objects[id] })
    } else {
        objects
    }
}

/// One axis of a step toward a target `d` away on this axis and `other` away on the
/// other: the unit vector toward the target, rounded to the nearest integer.
pub open spec fn step_toward(d: int, other: int) -> int {
    if d != 0 && 3 * (d * d) >= other * other {
        if d > 0 {
            1
        } else {
            -1
        }
    } else {
        0
    }
}

pub open spec fn fighter_at(o: Object, x: int, y: int) -> bool {
    o.fighter is Some && o.x == x && o.y == y
}

/// `t` is the first object with a fighter on `(x, y)`.
pub open spec fn first_fighter_at(objects: Seq<Object>, x: int, y: int, t: int) -> bool {
    &&& 0 <= t < objects.len()
    &&& fighter_at(objects[t], x, y)
    &&& forall|j: int| 0 <= j < t ==> !fighter_at(#[trigger] objects[j], x, y)
}

pub open spec fn no_fighter_at(objects: Seq<Object>, x: int, y: int) -> bool {
    forall|j: int| 0 <= j < objects.len() ==> !fighter_at(#[trigger] objects[j], x, y)
}

/// Object `a` attacked object `t`, turning `o0` into `o1` and `log0` into `log1`.
pub open spec fn strike(
    o0: Seq<Object>,
    o1: Seq<Object>,
    a: int,
    t: int,
    inv: Seq<Object>,
    log0: Seq<(Seq<char>, Color)>,
    log1: Seq<(Seq<char>, Color)>,
) -> bool {
    &&& o1.len() == o0.len()
    &&& attacked(o0[a], o1[a], o0[t], o1[t], inv, log0, log1)
    &&& forall|j: int| 0 <= j < o0.len() && j != a && j != t ==> o1[j] == o0[j]
}

/// A basic monster's turn: when it stands in view it closes in on the player, or strikes
/// when adjacent and the player still has hit points.
pub open spec fn basic_turn(
    o0: Seq<Object>,
    o1: Seq<Object>,
    m: int,
    fov: Fov,
    map: TileMap,
    inv: Seq<Object>,
    log0: Seq<(Seq<char>, Color)>,
    log1: Seq<(Seq<char>, Color)>,
) -> bool {
    let mon = o0[m];
    let pl = o0[PLAYER as int];
    if fov.visible_at(mon.x as int, mon.y as int) {
        if dist_sq(mon.x as int, mon.y as int, pl.x as int, pl.y as int) >= 4 {
            o1 == moved(
                o0,
                map,
                m,
                step_toward(pl.x - mon.x, pl.y - mon.y),
                step_toward(pl.y - mon.y, pl.x - mon.x),
            ) && log1 == log0
        } else if pl.fighter is Some && pl.fighter->0.hp > 0 {
            strike(o0, o1, m, PLAYER as int, inv, log0, log1)
        } else {
            o1 == o0 && log1 == log0
        }
    } else {
        o1 == o0 && log1 == log0
    }
}

pub open spec fn no_longer_confused_text(name: Seq<char>) -> Seq<char> {
    "The "@ + name + " is no longer confused!"@
}

/// A confused monster's turn with `n` turns left: it staggers by one random step, or, with
/// none left, only the message that it recovered is logged.
pub open spec fn confused_turn(
    o0: Seq<Object>,
    o1: Seq<Object>,
    m: int,
    n: int,
    map: TileMap,
    log0: Seq<(Seq<char>, Color)>,
    log1: Seq<(Seq<char>, Color)>,
) -> bool {
    if n >= 0 {
        log1 == log0 && exists|dx: int, dy: int|
            -1 <= dx <= 1 && -1 <= dy <= 1 && o1 == #[trigger] moved(o0, map, m, dx, dy)
    } else {
        o1 == o0 && log1 == log_add(log0, no_longer_confused_text(o0[m].name@), Color::Red)
    }
}

/// The behaviour that follows `ai` after one turn.
pub open spec fn next_ai(ai: Ai) -> Ai {
    match ai {
        Ai::Basic => Ai::Basic,
        Ai::Confused { previous_ai, num_turns } => if num_turns >= 0 {
            Ai::Confused { previous_ai, num_turns: (num_turns - 1) as i32 }
        } else {
            *previous_ai
        },
    }
}

/// `s` followed by `t`.
pub(crate) fn joined(s: String, t: &str) -> (r: String)
    ensures
        r@ == s@ + t@,
{
    let mut s = s;
    s.append(t);
    s
}

impl Object {
    /// A new object with no fighter, behaviour, item or equipment, not alive and not
    /// always visible.
    pub fn new(x: i32, y: i32, char: char, name: &str, color: Color, blocks: bool) -> (r: Self)
        ensures
            r.x == x && r.y == y && r.char == char && r.color == color,
            r.name@ == name@,
            r.blocks == blocks,
            !r.alive,
            r.fighter is None && r.ai is None && r.item is None && r.equipment is None,
            !r.always_visible,
    {
        Object {
            x,
            y,
            char,
            color,
            name: String::from_str(name),
            blocks,
            alive: false,
            fighter: None,
            ai: None,
            item: None,
            equipment: None,
            always_visible: false,
        }
    }

    pub fn pos(&self) -> (r: (i32, i32))
        ensures
            r == (self.x, self.y),
    {
        (self.x, self.y)
    }

    pub fn set_pos(&mut self, x: i32, y: i32)
        ensures
            *final(self) == (Object { x, y, ..*old(self) }),
    {
        self.x = x;
        self.y = y;
    }

    /// The square of the distance to `(x, y)`.
    pub fn distance_sq(&self, x: i32, y: i32) -> (r: i128)
        ensures
            r == dist_sq(self.x as int, self.y as int, x as int, y as int),
    {
        let dx = x as i128 - self.x as i128;
        let dy = y as i128 - self.y as i128;
        assert(0 <= dx * dx <= 0x1_0000_0000_0000_0000 && 0 <= dy * dy <= 0x1_0000_0000_0000_0000)
            by (nonlinear_arith)
            requires
                -0x1_0000_0000 < dx < 0x1_0000_0000,
                -0x1_0000_0000 < dy < 0x1_0000_0000,
        ;
        dx * dx + dy * dy
    }

    /// Whether this object is the one whose stats the inventory raises.
    fn is_player_named(&self) -> (r: bool)
        ensures
            r == (self.name@ == player_name()),
    {
        self.name == String::from_str("player")
    }

    /// The bonuses to `stat` of the equipped items of the inventory, for the player.
    fn equipped_bonus(&self, inventory: &Vec<Object>, stat: Stat) -> (r: i32)
        requires
            inventory_ok(inventory@),
        ensures
            r == if self.name@ == player_name() {
                bonus_total(inventory@, stat)
            } else {
                0
            },
    {
        if !self.is_player_named() {
            return 0;
        }
        let mut sum: i32 = 0;
        let mut i: usize = 0;
        while i < inventory.len()
            invariant
                inventory_ok(inventory@),
                i <= inventory@.len(),
                sum == bonus_total(inventory@.subrange(0, i as int), stat),
            decreases inventory@.len() - i,
        {
            let ghost pre = inventory@.subrange(0, i as int);
            let ghost next = inventory@.subrange(0, i + 1);
            proof {
                assert(next.drop_last() =~= pre);
                assert(object_in_limits(inventory@[i as int]));
                lemma_bonus_bound(pre, stat);
                assert(pre.len() * STAT_LIMIT <= 26 * STAT_LIMIT) by (nonlinear_arith)
                    requires
                        pre.len() <= 26,
                ;
            }
            let add: i32 = match &inventory[i].equipment {
                Some(e) => if e.equipped {
                    match stat {
                        Stat::Power => e.power_bonus,
                        Stat::Defense => e.defense_bonus,
                        Stat::MaxHp => e.max_hp_bonus,
                    }
                } else {
                    0
                },
                None => 0,
            };
            sum = sum + add;
            i = i + 1;
        }
        assert(inventory@.subrange(0, i as int) =~= inventory@);
        sum
    }

    fn stat(&self, game: &Game, stat: Stat) -> (r: i32)
        requires
            object_in_limits(*self),
            inventory_ok(game.inventory@),
        ensures
            r == effective(*self, game.inventory@, stat),
    {
        proof {
            lemma_effective_bound(*self, game.inventory@, stat);
            lemma_bonus_bound(game.inventory@, stat);
            assert(game.inventory@.len() * STAT_LIMIT <= 26 * STAT_LIMIT) by (nonlinear_arith)
                requires
                    game.inventory@.len() <= 26,
            ;
        }
        let base: i32 = match self.fighter {
            Some(f) => match stat {
                Stat::Power => f.base_power,
                Stat::Defense => f.base_defense,
                Stat::MaxHp => f.base_max_hp,
            },
            None => 0,
        };
        let bonus = self.equipped_bonus(&game.inventory, stat);
        base + bonus
    }

    /// Attack strength: base power plus equipped bonuses.
    pub fn power(&self, game: &Game) -> (r: i32)
        requires
            object_in_limits(*self),
            inventory_ok(game.inventory@),
        ensures
            r == effective(*self, game.inventory@, Stat::Power),
    {
        self.stat(game, Stat::Power)
    }

    /// Defense: base defense plus equipped bonuses.
    pub fn defense(&self, game: &Game) -> (r: i32)
        requires
            object_in_limits(*self),
            inventory_ok(game.inventory@),
        ensures
            r == effective(*self, game.inventory@, Stat::Defense),
    {
        self.stat(game, Stat::Defense)
    }

    /// Maximum hit points: base maximum plus equipped bonuses.
    pub fn max_hp(&self, game: &Game) -> (r: i32)
        requires
            object_in_limits(*self),
            inventory_ok(game.inventory@),
        ensures
            r == effective(*self, game.inventory@, Stat::MaxHp),
    {
        self.stat(game, Stat::MaxHp)
    }

    /// Subtracts `damage` (when positive) from the hit points; when they fall to zero or below
    /// while the object is alive, it dies and its experience award is returned.
    pub fn take_damage(&mut self, damage: i32, messages: &mut Messages) -> (r: Option<i32>)
        requires
            old(self).fighter is Some && damage > 0 ==> old(self).fighter->0.hp - damage
                >= i32::MIN,
        ensures
            took_damage(*old(self), *final(self), damage as int, old(messages)@, final(messages)@, r),
    {
        if let Some(f) = self.fighter {
            let hp = if damage > 0 {
                f.hp - damage
            } else {
                f.hp
            };
            self.fighter = Some(Fighter { hp, ..f });
            if hp <= 0 && self.alive {
                self.alive = false;
                f.on_death.callback(self, messages);
                return Some(f.xp);
            }
        }
        None
    }

    /// Strikes `target` for this object's power minus the target's defense; a kill credits
    /// the target's experience to this object.
    pub fn attack(&mut self, target: &mut Object, game: &mut Game)
        requires
            old(self).fighter is Some,
            object_in_limits(*old(self)),
            object_in_limits(*old(target)),
            inventory_ok(old(game).inventory@),
        ensures
            attacked(
                *old(self),
                *final(self),
                *old(target),
                *final(target),
                old(game).inventory@,
                old(game).log@,
                final(game).log@,
            ),
            final(game).map == old(game).map,
            final(game).inventory == old(game).inventory,
            final(game).dungeon_level == old(game).dungeon_level,
            final(game).player_level == old(game).player_level,
    {
        proof {
            lemma_effective_bound(*self, game.inventory@, Stat::Power);
            lemma_effective_bound(*target, game.inventory@, Stat::Defense);
        }
        let damage = self.power(game) - target.defense(game);
        if damage > 0 {
            let text = joined(
                joined(
                    joined(joined(self.name.clone(), " attacks "), target.name.as_str()),
                    " for ",
                ),
                int_text(damage).as_str(),
            );
            let text = joined(text, " hit points.");
            game.log.add(text, Color::Red);
            let ghost log_mid = game.log@;
            let r = target.take_damage(damage, &mut game.log);
            if let Some(xp) = r {
                let f = self.fighter.unwrap();
                self.fighter = Some(Fighter { xp: f.xp + xp, ..f });
            }
            proof {
                let dmg = effective(*old(self), old(game).inventory@, Stat::Power) - effective(
                    *old(target),
                    old(game).inventory@,
                    Stat::Defense,
                );
                assert(dmg == damage);
                assert(log_mid == log_add(
                    old(game).log@,
                    attack_text(old(self).name@, old(target).name@, dmg),
                    Color::Red,
                ));
                assert(took_damage(*old(target), *target, damage as int, log_mid, game.log@, r));
            }
        } else {
            let text = joined(
                joined(joined(self.name.clone(), " attacks "), target.name.as_str()),
                " but it has no effect!",
            );
            game.log.add(text, Color::White);
        }
    }

    /// Raises the hit points by `amount`, capped at the effective maximum.
    pub fn heal(&mut self, amount: i32, game: &Game)
        requires
            object_in_limits(*old(self)),
            inventory_ok(game.inventory@),
            old(self).fighter is Some ==> i32::MIN <= old(self).fighter->0.hp + amount
                <= i32::MAX,
        ensures
            match old(self).fighter {
                None => *final(self) == *old(self),
                Some(f) => *final(self) == (Object {
                    fighter: Some(
                        Fighter {
                            hp: healed_hp(
                                f.hp as int,
                                amount as int,
                                effective(*old(self), game.inventory@, Stat::MaxHp),
                            ) as i32,
                            ..f
                        },
                    ),
                    ..*old(self)
                }),
            },
    {
        let max_hp = self.max_hp(game);
        if let Some(f) = self.fighter {
            let mut hp = f.hp + amount;
            if hp > max_hp {
                hp = max_hp;
            }
            self.fighter = Some(Fighter { hp, ..f });
        }
    }

    /// Marks this item's equipment as worn.
    pub fn equip(&mut self, log: &mut Messages)
        ensures
            equip_effect(*old(self), *final(self), old(log)@, final(log)@, true),
    {
        if self.item.is_none() {
            let text = joined(
                joined(String::from_str("Can't equip "), self.name.as_str()),
                " because it's not an Item.",
            );
            log.add(text, Color::Red);
            return;
        }
        if let Some(e) = self.equipment {
            if !e.equipped {
                self.equipment = Some(Equipment { equipped: true, ..e });
                let text = joined(
                    joined(joined(String::from_str("Equipped "), self.name.as_str()), " on "),
                    e.slot.to_text(),
                );
                log.add(joined(text, "."), Color::LightGreen);
            }
        } else {
            let text = joined(
                joined(String::from_str("Can't equip "), self.name.as_str()),
                " because it's not an Equipment.",
            );
            log.add(text, Color::Red);
        }
    }

    /// Marks this item's equipment as not worn.
    pub fn unequip(&mut self, log: &mut Messages)
        ensures
            equip_effect(*old(self), *final(self), old(log)@, final(log)@, false),
    {
        if self.item.is_none() {
            let text = joined(
                joined(String::from_str("Can't dequip "), self.name.as_str()),
                " because it's not an Item.",
            );
            log.add(text, Color::Red);
            return;
        }
        if let Some(e) = self.equipment {
            if e.equipped {
                self.equipment = Some(Equipment { equipped: false, ..e });
                let text = joined(
                    joined(joined(String::from_str("Dequipped "), self.name.as_str()), " from "),
                    e.slot.to_text(),
                );
                log.add(joined(text, "."), Color::LightYellow);
            }
        } else {
            let text = joined(
                joined(String::from_str("Can't dequip "), self.name.as_str()),
                " because it's not an Equipment.",
            );
            log.add(text, Color::Red);
        }
    }
}

impl DeathCallback {
    /// Runs the death handling of this kind on `object`.
    pub fn callback(self, object: &mut Object, messages: &mut Messages)
        requires
            self == DeathCallback::Monster ==> old(object).fighter is Some,
        ensures
            match self {
                DeathCallback::Player => {
                    &&& *final(object) == (Object { char: '%', color: Color::DarkRed, ..*old(object) })
                    &&& final(messages)@ == log_add(old(messages)@, died_text(), Color::Red)
                },
                DeathCallback::Monster => {
                    &&& final(object).x == old(object).x && final(object).y == old(object).y
                    &&& final(object).char == '%' && final(object).color == Color::DarkRed
                    &&& final(object).alive == old(object).alive
                    &&& final(object).item == old(object).item
                    &&& final(object).equipment == old(object).equipment
                    &&& final(object).always_visible == old(object).always_visible
                    &&& final(object).fighter is None && final(object).ai is None
                    &&& !final(object).blocks
                    &&& final(object).name@ == "remains of "@ + old(object).name@
                    &&& final(messages)@ == log_add(
                        old(messages)@,
                        monster_dead_text(old(object).name@, old(object).fighter->0.xp as int),
                        Color::Orange,
                    )
                },
            },
    {
        match self {
            DeathCallback::Player => player_death(object, messages),
            DeathCallback::Monster => monster_death(object, messages),
        }
    }
}

fn player_death(player: &mut Object, log: &mut Messages)
    ensures
        *final(player) == (Object { char: '%', color: Color::DarkRed, ..*old(player) }),
        final(log)@ == log_add(old(log)@, died_text(), Color::Red),
{
    log.add(String::from_str("You died!"), Color::Red);
    player.char = '%';
    player.color = Color::DarkRed;
}

fn monster_death(monster: &mut Object, log: &mut Messages)
    requires
        old(monster).fighter is Some,
    ensures
        final(monster).x == old(monster).x && final(monster).y == old(monster).y,
        final(monster).char == '%' && final(monster).color == Color::DarkRed,
        final(monster).alive == old(monster).alive,
        final(monster).item == old(monster).item,
        final(monster).equipment == old(monster).equipment,
        final(monster).always_visible == old(monster).always_visible,
        final(monster).fighter is None && final(monster).ai is None,
        !final(monster).blocks,
        final(monster).name@ == "remains of "@ + old(monster).name@,
        final(log)@ == log_add(
            old(log)@,
            monster_dead_text(old(monster).name@, old(monster).fighter->0.xp as int),
            Color::Orange,
        ),
{
    let xp = monster.fighter.unwrap().xp;
    let text = joined(
        joined(joined(monster.name.clone(), " is dead! You gain "), int_text(xp).as_str()),
        " experience points.",
    );
    log.add(text, Color::Orange);
    monster.char = '%';
    monster.color = Color::DarkRed;
    monster.blocks = false;
    monster.fighter = None;
    monster.ai = None;
    monster.name = joined(String::from_str("remains of "), monster.name.as_str());
}

/// Moves object `id` by `(dx, dy)` unless the destination is off the grid or blocked.
pub fn move_by(id: usize, dx: i32, dy: i32, map: &TileMap, objects: &mut Vec<Object>)
    requires
        id < old(objects)@.len(),
        map.wf(),
    ensures
        final(objects)@ == moved(old(objects)@, *map, id as int, dx as int, dy as int),
{
    let nx = objects[id].x as i64 + dx as i64;
    let ny = objects[id].y as i64 + dy as i64;
    if 0 <= nx && nx < MAP_WIDTH as i64 && 0 <= ny && ny < MAP_HEIGHT as i64 {
        if !is_blocked(nx as i32, ny as i32, map, objects) {
            objects[id].x = nx as i32;
            objects[id].y = ny as i32;
            assert(objects@ =~= old(objects)@.update(
                id as int,
                Object { x: nx as i32, y: ny as i32, ..old(objects)@[id as int] },
            ));
        }
    }
}

/// The first object with a fighter standing on `(x, y)`.
fn fighter_position(objects: &Vec<Object>, x: i64, y: i64) -> (r: Option<usize>)
    ensures
        match r {
            Some(t) => first_fighter_at(objects@, x as int, y as int, t as int),
            None => no_fighter_at(objects@, x as int, y as int),
        },
{
    let mut i: usize = 0;
    while i < objects.len()
        invariant
            i <= objects@.len(),
            forall|j: int| 0 <= j < i ==> !fighter_at(#[trigger] objects@[j], x as int, y as int),
        decreases objects@.len() - i,
    {
        if objects[i].fighter.is_some() && objects[i].x as i64 == x && objects[i].y as i64 == y {
            return Some(i);
        }
        i = i + 1;
    }
    None
}

/// Object `a` attacks object `t` of the same list.
fn attack_in(a: usize, t: usize, objects: &mut Vec<Object>, game: &mut Game)
    requires
        a < old(objects)@.len(),
        t < old(objects)@.len(),
        a != t,
        old(objects)@[a as int].fighter is Some,
        object_in_limits(old(objects)@[a as int]),
        object_in_limits(old(objects)@[t as int]),
        inventory_ok(old(game).inventory@),
    ensures
        strike(
            old(objects)@,
            final(objects)@,
            a as int,
            t as int,
            old(game).inventory@,
            old(game).log@,
            final(game).log@,
        ),
        final(game).map == old(game).map,
        final(game).inventory == old(game).inventory,
        final(game).dungeon_level == old(game).dungeon_level,
        final(game).player_level == old(game).player_level,
{
    let mut target = Object::new(0, 0, ' ', "", Color::White, false);
    std::mem::swap(&mut target, &mut objects[t]);
    let ghost mid = objects@;
    objects[a].attack(&mut target, game);
    std::mem::swap(&mut target, &mut objects[t]);
    proof {
        assert forall|j: int| 0 <= j < old(objects)@.len() && j != a && j != t implies
            final(objects)@[j] == old(objects)@[j] by {
            assert(mid[j] == old(objects)@[j]);
        }
    }
}

/// What `player_move_or_attack` did, from world `o0` and session `g0` to `o1` and `g1`.
pub open spec fn move_or_attack_done(
    o0: Seq<Object>,
    o1: Seq<Object>,
    g0: Game,
    g1: Game,
    id: int,
    dx: int,
    dy: int,
) -> bool {
    &&& g1.map == g0.map
    &&& g1.inventory == g0.inventory
    &&& g1.dungeon_level == g0.dungeon_level
    &&& g1.player_level == g0.player_level
    &&& ({
            let x = o0[PLAYER as int].x + dx;
            let y = o0[PLAYER as int].y + dy;
            ||| exists|t: int|
                {
                    &&& #[trigger] first_fighter_at(o0, x, y, t)
                    &&& strike(
                        o0,
                        o1,
                        PLAYER as int,
                        t,
                        g0.inventory@,
                        g0.log@,
                        g1.log@,
                    )
                }
            ||| {
                &&& no_fighter_at(o0, x, y)
                &&& o1 == moved(o0, g0.map, id, dx, dy)
                &&& g1.log == g0.log
            }
        })
}

/// The player steps by `(dx, dy)`, or attacks the first fighter standing there.
pub fn player_move_or_attack(
    id: usize,
    dx: i32,
    dy: i32,
    objects: &mut Vec<Object>,
    game: &mut Game,
)
    requires
        id < old(objects)@.len(),
        dx != 0 || dy != 0,
        objects_ok(old(objects)@),
        old(objects)@[PLAYER as int].fighter is Some,
        old(game).map.wf(),
        inventory_ok(old(game).inventory@),
    ensures
        move_or_attack_done(
            old(objects)@,
            final(objects)@,
            *old(game),
            *final(game),
            id as int,
            dx as int,
            dy as int,
        ),
{
    let x = objects[PLAYER].x as i64 + dx as i64;
    let y = objects[PLAYER].y as i64 + dy as i64;
    match fighter_position(objects, x, y) {
        Some(target_id) => {
            proof {
                assert(object_in_limits(objects@[PLAYER as int]));
                assert(object_in_limits(objects@[target_id as int]));
            }
            attack_in(PLAYER, target_id, objects, game);
        },
        None => {
            move_by(id, dx, dy, &game.map, objects);
        },
    }
}

/// Object `id` takes one step toward `(target_x, target_y)`, along the rounded unit vector.
pub fn move_towards(id: usize, target_x: i32, target_y: i32, map: &TileMap, objects: &mut Vec<Object>)
    requires
        id < old(objects)@.len(),
        map.wf(),
    ensures
        final(objects)@ == moved(
            old(objects)@,
            *map,
            id as int,
            step_toward(target_x - old(objects)@[id as int].x, target_y - old(objects)@[id as int].y),
            step_toward(target_y - old(objects)@[id as int].y, target_x - old(objects)@[id as int].x),
        ),
{
    let dx = target_x as i128 - objects[id].x as i128;
    let dy = target_y as i128 - objects[id].y as i128;
    assert(0 <= dx * dx <= 0x1_0000_0000_0000_0000 && 0 <= dy * dy <= 0x1_0000_0000_0000_0000)
        by (nonlinear_arith)
        requires
            -0x1_0000_0000 < dx < 0x1_0000_0000,
            -0x1_0000_0000 < dy < 0x1_0000_0000,
    ;
    let sx: i32 = if dx != 0 && 3 * (dx * dx) >= dy * dy {
        if dx > 0 {
            1
        } else {
            -1
        }
    } else {
        0
    };
    let sy: i32 = if dy != 0 && 3 * (dy * dy) >= dx * dx {
        if dy > 0 {
            1
        } else {
            -1
        }
    } else {
        0
    };
    move_by(id, sx, sy, map, objects);
}

/// What `ai_take_turn` for monster `monster_id` did, from world `o0` and session `g0` to `o1` and `g1`.
pub open spec fn ai_turn_done(
    o0: Seq<Object>,
    o1: Seq<Object>,
    g0: Game,
    g1: Game,
    fov_map: Fov,
    monster_id: int,
) -> bool {
    &&& o1.len() == o0.len()
    &&& g1.map == g0.map
    &&& g1.inventory == g0.inventory
    &&& g1.dungeon_level == g0.dungeon_level
    &&& g1.player_level == g0.player_level
    &&& match o0[monster_id].ai {
            None => o1 == o0 && g1.log == g0.log,
            Some(ai) => exists|mid: Seq<Object>| #[trigger] ai_turn_via(o0, mid, o1, g0, g1, fov_map, monster_id, ai),
        }
}

/// A monster's turn that went through `mid`: its behaviour is set aside, the world goes to
/// `mid` as the behaviour dictates, and the next behaviour is put back.
pub open spec fn ai_turn_via(
    o0: Seq<Object>,
    mid: Seq<Object>,
    o1: Seq<Object>,
    g0: Game,
    g1: Game,
    fov_map: Fov,
    m: int,
    ai: Ai,
) -> bool {
    let taken = o0.update(m, Object { ai: None, ..o0[m] });
    &&& mid.len() == taken.len()
    &&& o1 == mid.update(m, Object { ai: Some(next_ai(ai)), ..mid[m] })
    &&& match ai {
        Ai::Basic => basic_turn(taken, mid, m, fov_map, g0.map, g0.inventory@, g0.log@, g1.log@),
        Ai::Confused { previous_ai, num_turns } => confused_turn(
            taken,
            mid,
            m,
            num_turns as int,
            g0.map,
            g0.log@,
            g1.log@,
        ),
    }
}

/// Plays one turn of monster `monster_id` according to its behaviour.
pub fn ai_take_turn(monster_id: usize, objects: &mut Vec<Object>, game: &mut Game, fov_map: &Fov)
    requires
        monster_id < old(objects)@.len(),
        monster_id != PLAYER,
        objects_ok(old(objects)@),
        old(game).map.wf(),
        inventory_ok(old(game).inventory@),
        fov_map.wf(),
    ensures
        ai_turn_done(
            old(objects)@,
            final(objects)@,
            *old(game),
            *final(game),
            *fov_map,
            monster_id as int,
        ),
{
    let mut ai: Option<Ai> = None;
    std::mem::swap(&mut ai, &mut objects[monster_id].ai);
    let ghost taken = objects@;
    match ai {
        Some(current) => {
            let ghost cur = current;
            let new_ai = match current {
                Ai::Basic => ai_basic(monster_id, objects, fov_map, game),
                Ai::Confused { previous_ai, num_turns } => ai_confused(
                    monster_id,
                    objects,
                    previous_ai,
                    num_turns,
                    game,
                ),
            };
            let ghost mid = objects@;
            objects[monster_id].ai = Some(new_ai);
            proof {
                assert(objects@ =~= mid.update(
                    monster_id as int,
                    Object { ai: Some(next_ai(cur)), ..mid[monster_id as int] },
                ));
                assert(ai_turn_via(
                    old(objects)@,
                    mid,
                    objects@,
                    *old(game),
                    *game,
                    *fov_map,
                    monster_id as int,
                    cur,
                ));
            }
        },
        None => {
            proof {
                assert(objects@ =~= old(objects)@);
            }
        },
    }
}

/// A basic monster's turn; its behaviour stays basic.
pub fn ai_basic(monster_id: usize, objects: &mut Vec<Object>, fov_map: &Fov, game: &mut Game) -> (r:
    Ai)
    requires
        monster_id < old(objects)@.len(),
        monster_id != PLAYER,
        old(objects)@.len() > 0,
        old(objects)@[monster_id as int].fighter is Some,
        object_in_limits(old(objects)@[monster_id as int]),
        object_in_limits(old(objects)@[PLAYER as int]),
        in_map(old(objects)@[monster_id as int].x as int, old(objects)@[monster_id as int].y as int),
        old(game).map.wf(),
        inventory_ok(old(game).inventory@),
        fov_map.wf(),
    ensures
        r == Ai::Basic,
        basic_turn(
            old(objects)@,
            final(objects)@,
            monster_id as int,
            *fov_map,
            old(game).map,
            old(game).inventory@,
            old(game).log@,
            final(game).log@,
        ),
        final(game).map == old(game).map,
        final(game).inventory == old(game).inventory,
        final(game).dungeon_level == old(game).dungeon_level,
        final(game).player_level == old(game).player_level,
{
    let (monster_x, monster_y) = objects[monster_id].pos();
    if fov_map.is_in_fov(monster_x, monster_y) {
        let (player_x, player_y) = objects[PLAYER].pos();
        if objects[monster_id].distance_sq(player_x, player_y) >= 4 {
            move_towards(monster_id, player_x, player_y, &game.map, objects);
        } else if match objects[PLAYER].fighter {
            Some(f) => f.hp > 0,
            None => false,
        } {
            attack_in(monster_id, PLAYER, objects, game);
        }
    }
    Ai::Basic
}

/// A confused monster's turn: a random step while turns remain, then recovery.
pub fn ai_confused(
    monster_id: usize,
    objects: &mut Vec<Object>,
    previous_ai: Box<Ai>,
    num_turns: i32,
    game: &mut Game,
) -> (r: Ai)
    requires
        monster_id < old(objects)@.len(),
        old(game).map.wf(),
    ensures
        r == next_ai(Ai::Confused { previous_ai, num_turns }),
        confused_turn(
            old(objects)@,
            final(objects)@,
            monster_id as int,
            num_turns as int,
            old(game).map,
            old(game).log@,
            final(game).log@,
        ),
        final(game).map == old(game).map,
        final(game).inventory == old(game).inventory,
        final(game).dungeon_level == old(game).dungeon_level,
        final(game).player_level == old(game).player_level,
{
    if num_turns >= 0 {
        let dx = random_range(-1, 2);
        let dy = random_range(-1, 2);
        move_by(monster_id, dx, dy, &game.map, objects);
        proof {
            assert(objects@ == moved(old(objects)@, old(game).map, monster_id as int, dx as int, dy as int));
        }
        Ai::Confused { previous_ai: previous_ai, num_turns: num_turns - 1 }
    } else {
        let text = joined(
            joined(String::from_str("The "), objects[monster_id].name.as_str()),
            " is no longer confused!",
        );
        game.log.add(text, Color::Red);
        *previous_ai
    }
}

/// Death is handled once: after a hit that kills, a further hit neither reports a kill nor
/// logs anything, and leaves the object alive flag false.
pub proof fn lemma_death_once(
    o0: Object,
    o1: Object,
    o2: Object,
    a: int,
    b: int,
    log0: Seq<(Seq<char>, Color)>,
    log1: Seq<(Seq<char>, Color)>,
    log2: Seq<(Seq<char>, Color)>,
    r1: Option<i32>,
    r2: Option<i32>,
)
    requires
        took_damage(o0, o1, a, log0, log1, r1),
        took_damage(o1, o2, b, log1, log2, r2),
        r1 is Some,
    ensures
        !o1.alive,
        !o2.alive,
        r2 is None,
        log2 == log1,
{
}

/// The behaviour after `k` turns, starting from `ai`.
pub open spec fn ai_after(ai: Ai, k: nat) -> Ai
    decreases k,
{
    if k == 0 {
        ai
    } else {
        next_ai(ai_after(ai, (k - 1) as nat))
    }
}

/// Whether a turn played with behaviour `ai` is the one where a confusion wears off (the
/// only kind of turn that logs the recovery).
pub open spec fn recovers(ai: Ai) -> bool {
    ai matches Ai::Confused { num_turns, .. } && num_turns < 0
}

/// A basic monster confused for `n` turns staggers for `n + 1` turns counting down, recovers
/// on the turn after (the one turn whose play logs the recovery) and stays basic from then
/// on.
pub proof fn lemma_confusion_wears_off(n: i32, k: nat)
    requires
        0 <= n < i32::MAX,
    ensures
        k <= n + 1 ==> ai_after(Ai::Confused { previous_ai: Box::new(Ai::Basic), num_turns: n }, k)
            == (Ai::Confused { previous_ai: Box::new(Ai::Basic), num_turns: (n - k) as i32 }),
        recovers(ai_after(Ai::Confused { previous_ai: Box::new(Ai::Basic), num_turns: n }, k))
            <==> k == n + 1,
        k >= n + 2 ==> ai_after(Ai::Confused { previous_ai: Box::new(Ai::Basic), num_turns: n }, k)
            == Ai::Basic,
    decreases k,
{
    if k > 0 {
        lemma_confusion_wears_off(n, (k - 1) as nat);
    }
}

/// A hit on an object that is no longer alive runs no death handling: no kill is reported,
/// nothing is logged, and its glyph, name, blocking and fighter presence stay as they were.
pub proof fn lemma_dead_stays_dead(
    o1: Object,
    o2: Object,
    b: int,
    log1: Seq<(Seq<char>, Color)>,
    log2: Seq<(Seq<char>, Color)>,
    r2: Option<i32>,
)
    requires
        !o1.alive,
        took_damage(o1, o2, b, log1, log2, r2),
    ensures
        r2 is None,
        log2 == log1,
        !o2.alive,
        o2.char == o1.char && o2.name == o1.name && o2.blocks == o1.blocks,
        o2.fighter is Some == o1.fighter is Some,
{
}

/// Turns of a monster that starts confused for `n` turns on top of basic behaviour, played
/// one after the other through the states `os` and `gs`: after `j` turns its behaviour is
/// `ai_after(.., j)`; a turn played while the confusion has run out logs the recovery, and a
/// turn played while it is still running logs nothing.
pub proof fn lemma_confusion_turns(
    os: Seq<Seq<Object>>,
    gs: Seq<Game>,
    fov: Fov,
    m: int,
    n: i32,
    k: int,
)
    requires
        0 <= k < os.len(),
        k < gs.len(),
        0 <= m < os[0].len(),
        os[0][m].ai == Some(Ai::Confused { previous_ai: Box::new(Ai::Basic), num_turns: n }),
        forall|j: int| 0 <= j < k ==> #[trigger] ai_turn_done(os[j], os[j + 1], gs[j], gs[j + 1], fov, m),
    ensures
        forall|j: int|
            0 <= j <= k ==> (#[trigger] os[j]).len() == os[0].len() && os[j][m].ai == Some(
                ai_after(Ai::Confused { previous_ai: Box::new(Ai::Basic), num_turns: n }, j as nat),
            ),
        forall|j: int|
            0 <= j < k ==> {
                let a = ai_after(Ai::Confused { previous_ai: Box::new(Ai::Basic), num_turns: n }, j as nat);
                &&& recovers(a) ==> (#[trigger] gs[j + 1]).log@ == log_add(
                    gs[j].log@,
                    no_longer_confused_text(os[j][m].name@),
                    Color::Red,
                )
                &&& (a is Confused && !recovers(a)) ==> gs[j + 1].log@ == gs[j].log@
            },
    decreases k,
{
    let c = Ai::Confused { previous_ai: Box::new(Ai::Basic), num_turns: n };
    if k > 0 {
        lemma_confusion_turns(os, gs, fov, m, n, k - 1);
        let j = k - 1;
        assert(ai_turn_done(os[j], os[j + 1], gs[j], gs[j + 1], fov, m));
        let a = ai_after(c, j as nat);
        assert(os[j][m].ai == Some(a));
        let mid = choose|mid: Seq<Object>| #[trigger] ai_turn_via(os[j], mid, os[j + 1], gs[j], gs[j + 1], fov, m, a);
        assert(ai_after(c, k as nat) == next_ai(a));
        assert(os[k][m].ai == Some(next_ai(a)));
        let taken = os[j].update(m, Object { ai: None, ..os[j][m] });
        assert(taken[m].name == os[j][m].name);
        assert forall|i: int| 0 <= i <= k implies (#[trigger] os[i]).len() == os[0].len() && os[i][m].ai == Some(ai_after(c, i as nat)) by {
        }
        assert forall|i: int| 0 <= i < k implies {
            let a = ai_after(c, i as nat);
            &&& recovers(a) ==> (#[trigger] gs[i + 1]).log@ == log_add(
                gs[i].log@,
                no_longer_confused_text(os[i][m].name@),
                Color::Red,
            )
            &&& (a is Confused && !recovers(a)) ==> gs[i + 1].log@ == gs[i].log@
        } by {
            if i == j {
                if a is Confused {
                    assert(confused_turn(taken, mid, m, a->num_turns as int, gs[j].map, gs[j].log@, gs[j + 1].log@));
                }
            }
        }
    }
}

} // verus!
