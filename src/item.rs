//! Items, equipment and the inventory, and what using each item does.

use crate::fov::Fov;
use crate::game::Game;
use crate::log::{decimal_text, int_text, log_add, Color};
use crate::map::{in_map, MAP_HEIGHT, MAP_WIDTH};
use crate::object::{
    bonus_total, dist_sq, effective, equip_effect, fighter_at, fighter_in_limits, healed_hp,
    inventory_ok, item_bonus, joined, lemma_bonus_update, object_in_limits, objects_ok, player_name,
    took_damage,
    Ai, DeathCallback, Fighter, Object, Stat, MAX_INVENTORY, STAT_LIMIT,
};
use crate::PLAYER;
use vstd::prelude::*;

verus! {

pub const HEAL_AMOUNT: i32 = 40;
pub const LIGHTNING_DAMAGE: i32 = 40;
pub const LIGHTNING_RANGE: i32 = 5;
pub const CONFUSE_RANGE: i32 = 8;
pub const CONFUSE_NUM_TURNS: i32 = 10;
pub const FIREBALL_RADIUS: i32 = 3;
pub const FIREBALL_DAMAGE: i32 = 25;

/// Where a piece of equipment is worn.
#[derive(Clone, Copy, Debug, PartialEq, Eq, Structural)]
pub enum Slot {
    LeftHand,
    RightHand,
    Head,
}

pub open spec fn slot_text(s: Slot) -> Seq<char> {
    match s {
        Slot::LeftHand => "left hand"@,
        Slot::RightHand => "right hand"@,
        Slot::Head => "head"@,
    }
}

impl Slot {
    /// The slot's name as shown to the player.
    pub fn to_text(&self) -> (r: &'static str)
        ensures
            r@ == slot_text(*self),
    {
        match *self {
            Slot::LeftHand => "left hand",
            Slot::RightHand => "right hand",
            Slot::Head => "head",
        }
    }
}

/// What a wearable item adds to its wearer while equipped.
#[derive(Clone, Copy, Debug, PartialEq, Eq, Structural)]
pub struct Equipment {
    pub slot: Slot,
    pub equipped: bool,
    pub power_bonus: i32,
    pub defense_bonus: i32,
    pub max_hp_bonus: i32,
}

/// The use-effect of an item.
#[derive(Clone, Copy, Debug, PartialEq, Eq, Structural)]
pub enum Item {
    Heal,
    Lightning,
    Confuse,
    Fireball,
    Sword,
    Shield,
}

/// The outcome of using an item.
#[derive(Clone, Copy, Debug, PartialEq, Eq, Structural)]
pub enum UseResult {
    UsedUp,
    UsedAndKept,
    Cancelled,
}

/// Whether `o` is equipment worn in `slot`.
pub open spec fn worn_in(o: Object, slot: Slot) -> bool {
    o.equipment is Some && o.equipment->0.equipped && o.equipment->0.slot == slot
}

/// `k` is the first item of `inv` worn in `slot`.
pub open spec fn first_worn_in(inv: Seq<Object>, slot: Slot, k: int) -> bool {
    &&& 0 <= k < inv.len()
    &&& worn_in(inv[k], slot)
    &&& forall|j: int| 0 <= j < k ==> !worn_in(#[trigger] inv[j], slot)
}

pub open spec fn none_worn_in(inv: Seq<Object>, slot: Slot) -> bool {
    forall|j: int| 0 <= j < inv.len() ==> !worn_in(#[trigger] inv[j], slot)
}

/// At most one item of `inv` is worn in each slot.
pub open spec fn slots_unique(inv: Seq<Object>) -> bool {
    forall|i: int, j: int|
        0 <= i < inv.len() && 0 <= j < inv.len() && i != j && #[trigger] inv[i].equipment is Some
            && #[trigger] inv[j].equipment is Some && inv[i].equipment->0.equipped
            && inv[j].equipment->0.equipped ==> inv[i].equipment->0.slot != inv[j].equipment->0.slot
}

/// `toggle_equipment` on item `id` turned `inv0` into `inv1` and `log0` into `log1`, with
/// outcome `r`: worn equipment is taken off; other equipment is put on after whatever was
/// worn in its slot is taken off.
pub open spec fn toggled(
    inv0: Seq<Object>,
    inv1: Seq<Object>,
    id: int,
    log0: Seq<(Seq<char>, Color)>,
    log1: Seq<(Seq<char>, Color)>,
    r: UseResult,
) -> bool {
    match inv0[id].equipment {
        None => r == UseResult::Cancelled && inv1 == inv0 && log1 == log0,
        Some(e) => {
            &&& r == UseResult::UsedAndKept
            &&& if e.equipped {
                exists|b: Object|
                    #[trigger] equip_effect(inv0[id], b, log0, log1, false) && inv1 == inv0.update(
                        id,
                        b,
                    )
            } else {
                exists|inv_m: Seq<Object>, log_m: Seq<(Seq<char>, Color)>, b: Object|
                    {
                        &&& ({
                            ||| exists|k: int, a: Object|
                                {
                                    &&& #[trigger] first_worn_in(inv0, e.slot, k)
                                    &&& #[trigger] equip_effect(inv0[k], a, log0, log_m, false)
                                    &&& inv_m == inv0.update(k, a)
                                }
                            ||| none_worn_in(inv0, e.slot) && inv_m == inv0 && log_m == log0
                        })
                        &&& #[trigger] equip_effect(inv_m[id], b, log_m, log1, true)
                        &&& inv1 == inv_m.update(id, b)
                    }
            }
        },
    }
}

pub open spec fn full_text(name: Seq<char>) -> Seq<char> {
    "Your inventory is full, cannot pick up "@ + name + "."@
}

pub open spec fn picked_text(name: Seq<char>) -> Seq<char> {
    "You picked up a "@ + name + "!"@
}

pub open spec fn dropped_text(name: Seq<char>) -> Seq<char> {
    "You dropped a "@ + name + "."@
}

/// `pick_item_up` of `item` with inventory `inv0` and log `log0` left `inv1` and `log1`:
/// the item joins the inventory and is put on when nothing is worn in its slot yet.
pub open spec fn picked_up(
    item: Object,
    inv0: Seq<Object>,
    inv1: Seq<Object>,
    log0: Seq<(Seq<char>, Color)>,
    log1: Seq<(Seq<char>, Color)>,
) -> bool {
    let inv_p = inv0.push(item);
    let log_p = log_add(log0, picked_text(item.name@), Color::Green);
    if item.equipment is Some && none_worn_in(inv_p, item.equipment->0.slot) {
        exists|b: Object|
            #[trigger] equip_effect(item, b, log_p, log1, true) && inv1 == inv_p.update(
                inv0.len() as int,
                b,
            )
    } else {
        inv1 == inv_p && log1 == log_p
    }
}

/// The index of the first inventory item worn in `slot`.
pub fn get_equipment_in_slot(slot: Slot, inventory: &Vec<Object>) -> (r: Option<usize>)
    ensures
        match r {
            Some(k) => first_worn_in(inventory@, slot, k as int),
            None => none_worn_in(inventory@, slot),
        },
{
    let mut i: usize = 0;
    while i < inventory.len()
        invariant
            i <= inventory@.len(),
            forall|j: int| 0 <= j < i ==> !worn_in(#[trigger] inventory@[j], slot),
        decreases inventory@.len() - i,
    {
        if let Some(e) = inventory[i].equipment {
            if e.equipped && e.slot == slot {
                return Some(i);
            }
        }
        i = i + 1;
    }
    None
}

/// Takes off worn equipment, or puts on equipment after taking off what its slot holds.
pub fn toggle_equipment(inventory_id: usize, game: &mut Game) -> (r: UseResult)
    requires
        inventory_id < old(game).inventory@.len(),
    ensures
        toggled(
            old(game).inventory@,
            final(game).inventory@,
            inventory_id as int,
            old(game).log@,
            final(game).log@,
            r,
        ),
        final(game).map == old(game).map,
        final(game).dungeon_level == old(game).dungeon_level,
        final(game).player_level == old(game).player_level,
{
    let equipment = match game.inventory[inventory_id].equipment {
        Some(equipment) => equipment,
        None => return UseResult::Cancelled,
    };
    if equipment.equipped {
        game.inventory[inventory_id].unequip(&mut game.log);
        assert(equip_effect(
            old(game).inventory@[inventory_id as int],
            game.inventory@[inventory_id as int],
            old(game).log@,
            game.log@,
            false,
        ));
        assert(game.inventory@ =~= old(game).inventory@.update(
            inventory_id as int,
            game.inventory@[inventory_id as int],
        ));
    } else {
        let old_slot = get_equipment_in_slot(equipment.slot, &game.inventory);
        if let Some(k) = old_slot {
            game.inventory[k].unequip(&mut game.log);
            assert(game.inventory@ =~= old(game).inventory@.update(k as int, game.inventory@[k as int]));
            assert(equip_effect(
                old(game).inventory@[k as int],
                game.inventory@[k as int],
                old(game).log@,
                game.log@,
                false,
            ));
        }
        let ghost inv_m = game.inventory@;
        let ghost log_m = game.log@;
        game.inventory[inventory_id].equip(&mut game.log);
        assert(game.inventory@ =~= inv_m.update(inventory_id as int, game.inventory@[inventory_id as int]));
        assert(equip_effect(
            inv_m[inventory_id as int],
            game.inventory@[inventory_id as int],
            log_m,
            game.log@,
            true,
        ));
    }
    UseResult::UsedAndKept
}

/// What `pick_item_up` of object `object_id` did, from world `o0` and session `g0` to `o1` and `g1`.
pub open spec fn pick_up_done(
    o0: Seq<Object>,
    o1: Seq<Object>,
    g0: Game,
    g1: Game,
    object_id: int,
) -> bool {
    &&& g1.map == g0.map
    &&& g1.dungeon_level == g0.dungeon_level
    &&& g1.player_level == g0.player_level
    &&& ({
            let item = o0[object_id];
            if g0.inventory@.len() >= MAX_INVENTORY {
                &&& o1 == o0
                &&& g1.inventory@ == g0.inventory@
                &&& g1.log@ == log_add(g0.log@, full_text(item.name@), Color::Red)
            } else {
                &&& o1 == o0.update(object_id, o0.last()).drop_last()
                &&& picked_up(item, g0.inventory@, g1.inventory@, g0.log@, g1.log@)
            }
        })
}

/// Moves object `object_id` from the world into the inventory, unless the inventory is full;
/// equipment is put on when its slot is free.
pub fn pick_item_up(object_id: usize, objects: &mut Vec<Object>, game: &mut Game)
    requires
        object_id < old(objects)@.len(),
        object_id != PLAYER,
    ensures
        pick_up_done(
            old(objects)@,
            final(objects)@,
            *old(game),
            *final(game),
            object_id as int,
        ),
{
    if game.inventory.len() >= MAX_INVENTORY {
        let text = joined(
            joined(String::from_str("Your inventory is full, cannot pick up "), objects[object_id].name.as_str()),
            ".",
        );
        game.log.add(text, Color::Red);
    } else {
        let item = objects.swap_remove(object_id);
        let text = joined(joined(String::from_str("You picked up a "), item.name.as_str()), "!");
        game.log.add(text, Color::Green);
        let index = game.inventory.len();
        let slot = match item.equipment {
            Some(e) => Some(e.slot),
            None => None,
        };
        game.inventory.push(item);
        let ghost inv_p = game.inventory@;
        let ghost log_p = game.log@;
        if let Some(slot) = slot {
            if get_equipment_in_slot(slot, &game.inventory).is_none() {
                game.inventory[index].equip(&mut game.log);
                assert(game.inventory@ =~= inv_p.update(index as int, game.inventory@[index as int]));
                assert(equip_effect(inv_p[index as int], game.inventory@[index as int], log_p, game.log@, true));
            }
        }
        proof {
            let it = old(objects)@[object_id as int];
            assert(inv_p =~= old(game).inventory@.push(it));
            assert(log_p == log_add(old(game).log@, picked_text(it.name@), Color::Green));
            assert(picked_up(it, old(game).inventory@, game.inventory@, old(game).log@, game.log@));
        }
    }
}

/// What `drop_item` of inventory item `inventory_id` did, from world `o0` and session `g0` to `o1` and `g1`.
pub open spec fn drop_done(
    o0: Seq<Object>,
    o1: Seq<Object>,
    g0: Game,
    g1: Game,
    inventory_id: int,
) -> bool {
    &&& g1.map == g0.map
    &&& g1.dungeon_level == g0.dungeon_level
    &&& g1.player_level == g0.player_level
    &&& g1.inventory@ == g0.inventory@.remove(inventory_id)
    &&& ({
            let item = g0.inventory@[inventory_id];
            let px = o0[PLAYER as int].x;
            let py = o0[PLAYER as int].y;
            if item.equipment is Some {
                exists|b: Object, log_m: Seq<(Seq<char>, Color)>|
                    {
                        &&& #[trigger] equip_effect(item, b, g0.log@, log_m, false)
                        &&& o1 == o0.push(Object { x: px, y: py, ..b })
                        &&& g1.log@ == log_add(log_m, dropped_text(item.name@), Color::Yellow)
                    }
            } else {
                &&& o1 == o0.push(Object { x: px, y: py, ..item })
                &&& g1.log@ == log_add(g0.log@, dropped_text(item.name@), Color::Yellow)
            }
        })
}

/// Moves inventory item `inventory_id` to the player's feet, taking it off first.
pub fn drop_item(inventory_id: usize, objects: &mut Vec<Object>, game: &mut Game)
    requires
        inventory_id < old(game).inventory@.len(),
        old(objects)@.len() > 0,
    ensures
        drop_done(
            old(objects)@,
            final(objects)@,
            *old(game),
            *final(game),
            inventory_id as int,
        ),
{
    let mut item = game.inventory.remove(inventory_id);
    let ghost before = item;
    if item.equipment.is_some() {
        item.unequip(&mut game.log);
    }
    let ghost b = item;
    let ghost log_m = game.log@;
    item.set_pos(objects[PLAYER].x, objects[PLAYER].y);
    let text = joined(joined(String::from_str("You dropped a "), item.name.as_str()), ".");
    game.log.add(text, Color::Yellow);
    objects.push(item);
    proof {
        if before.equipment is Some {
            assert(equip_effect(before, b, old(game).log@, log_m, false));
        }
        assert(b.name == before.name);
        assert(objects@ =~= old(objects)@.push(Object { x: old(objects)@[0].x, y: old(objects)@[0].y, ..b }));
        assert(game.log@ == log_add(log_m, dropped_text(before.name@), Color::Yellow));
    }
}

/// What the front end must obtain before an item that needs a target can be used: a tile in
/// view, within `max_range` of the player when that is given, holding a monster when
/// `must_be_monster`.
#[derive(Clone, Copy, Debug, PartialEq, Eq, Structural)]
pub struct TargetRequest {
    pub max_range: Option<i32>,
    pub must_be_monster: bool,
}

/// Whether `(x, y)` may be chosen as a target.
pub open spec fn target_ok(fov: Fov, player: Object, x: int, y: int, max_range: Option<i32>) -> bool {
    &&& in_map(x, y)
    &&& fov.visible_at(x, y)
    &&& match max_range {
        None => true,
        Some(r) => r >= 0 && dist_sq(player.x as int, player.y as int, x, y) <= r * r,
    }
}

/// Whether the tile `(x, y)` may be chosen as a target.
pub fn target_tile_ok(fov: &Fov, objects: &Vec<Object>, x: i32, y: i32, max_range: Option<i32>) -> (r:
    bool)
    requires
        fov.wf(),
        objects@.len() > 0,
    ensures
        r == target_ok(*fov, objects@[PLAYER as int], x as int, y as int, max_range),
{
    if x < 0 || x >= MAP_WIDTH || y < 0 || y >= MAP_HEIGHT {
        return false;
    }
    if !fov.is_in_fov(x, y) {
        return false;
    }
    match max_range {
        None => true,
        Some(range) => {
            assert(0 <= range as i128 * range as i128 <= 0x4000_0000_0000_0000) by (nonlinear_arith)
                requires
                    i32::MIN <= range <= i32::MAX,
            ;
            let r2: i128 = range as i128 * range as i128;
            range >= 0 && objects[PLAYER].distance_sq(x, y) <= r2
        },
    }
}

/// `t` is the first object other than the player with a fighter on `(x, y)`.
pub open spec fn first_monster_at(objects: Seq<Object>, x: int, y: int, t: int) -> bool {
    &&& 0 <= t < objects.len()
    &&& t != PLAYER
    &&& fighter_at(objects[t], x, y)
    &&& forall|j: int| 0 <= j < t && j != PLAYER ==> !fighter_at(#[trigger] objects[j], x, y)
}

pub open spec fn no_monster_at(objects: Seq<Object>, x: int, y: int) -> bool {
    forall|j: int| 0 <= j < objects.len() && j != PLAYER ==> !fighter_at(#[trigger] objects[j], x, y)
}

/// The first object other than the player with a fighter standing on `(x, y)`.
pub fn monster_at(objects: &Vec<Object>, x: i32, y: i32) -> (r: Option<usize>)
    ensures
        match r {
            Some(t) => first_monster_at(objects@, x as int, y as int, t as int),
            None => no_monster_at(objects@, x as int, y as int),
        },
{
    let mut i: usize = 0;
    while i < objects.len()
        invariant
            i <= objects@.len(),
            forall|j: int|
                0 <= j < i && j != PLAYER ==> !fighter_at(#[trigger] objects@[j], x as int, y as int),
        decreases objects@.len() - i,
    {
        if i != PLAYER && objects[i].fighter.is_some() && objects[i].x == x && objects[i].y == y {
            return Some(i);
        }
        i = i + 1;
    }
    None
}

/// Object `i` is a monster the player can see.
pub open spec fn visible_monster(objects: Seq<Object>, fov: Fov, i: int) -> bool {
    &&& i != PLAYER
    &&& objects[i].fighter is Some
    &&& objects[i].ai is Some
    &&& fov.visible_at(objects[i].x as int, objects[i].y as int)
}

pub open spec fn player_dist_sq(objects: Seq<Object>, i: int) -> int {
    dist_sq(
        objects[PLAYER as int].x as int,
        objects[PLAYER as int].y as int,
        objects[i].x as int,
        objects[i].y as int,
    )
}

/// `r` is the nearest visible monster closer than `max_range + 1`, the earliest on ties.
pub open spec fn closest_is(objects: Seq<Object>, fov: Fov, max_range: int, r: Option<usize>) -> bool {
    let bound = (max_range + 1) * (max_range + 1);
    match r {
        Some(t) => {
            &&& t < objects.len()
            &&& visible_monster(objects, fov, t as int)
            &&& player_dist_sq(objects, t as int) < bound
            &&& forall|j: int|
                0 <= j < objects.len() && #[trigger] visible_monster(objects, fov, j) ==> {
                    &&& player_dist_sq(objects, j) >= player_dist_sq(objects, t as int)
                    &&& (j < t ==> player_dist_sq(objects, j) > player_dist_sq(objects, t as int))
                }
        },
        None => forall|j: int|
            0 <= j < objects.len() && #[trigger] visible_monster(objects, fov, j)
                ==> player_dist_sq(objects, j) >= bound,
    }
}

/// The nearest monster in view closer than `max_range + 1`.
fn closest_monster(max_range: i32, objects: &Vec<Object>, fov: &Fov) -> (r: Option<usize>)
    requires
        0 <= max_range <= 1000,
        objects_ok(objects@),
        fov.wf(),
    ensures
        closest_is(objects@, *fov, max_range as int, r),
{
    let mut closest_enemy: Option<usize> = None;
    assert(0 <= (max_range as i128 + 1) * (max_range as i128 + 1) <= 1002001) by (nonlinear_arith)
        requires
            0 <= max_range <= 1000,
    ;
    let mut closest_dist: i128 = (max_range as i128 + 1) * (max_range as i128 + 1);
    let ghost bound = (max_range + 1) * (max_range + 1);
    let mut i: usize = 0;
    while i < objects.len()
        invariant
            objects_ok(objects@),
            fov.wf(),
            i <= objects@.len(),
            bound == (max_range + 1) * (max_range + 1),
            match closest_enemy {
                Some(t) => {
                    &&& t < i
                    &&& visible_monster(objects@, *fov, t as int)
                    &&& closest_dist == player_dist_sq(objects@, t as int)
                    &&& closest_dist < bound
                },
                None => closest_dist == bound,
            },
            forall|j: int|
                0 <= j < i && #[trigger] visible_monster(objects@, *fov, j) ==> {
                    &&& player_dist_sq(objects@, j) >= closest_dist
                    &&& (closest_enemy is Some && j < closest_enemy->0 ==> player_dist_sq(objects@, j)
                        > closest_dist)
                },
        decreases objects@.len() - i,
    {
        proof {
            assert(in_map(objects@[i as int].x as int, objects@[i as int].y as int));
        }
        if i != PLAYER && objects[i].fighter.is_some() && objects[i].ai.is_some() && fov.is_in_fov(
            objects[i].x,
            objects[i].y,
        ) {
            let dist = objects[PLAYER].distance_sq(objects[i].x, objects[i].y);
            if dist < closest_dist {
                closest_enemy = Some(i);
                closest_dist = dist;
            }
        }
        i = i + 1;
    }
    closest_enemy
}

pub open spec fn full_health_text() -> Seq<char> {
    "You are already at full health."@
}

pub open spec fn wounds_text() -> Seq<char> {
    "Your wounds start to feel better!"@
}

pub open spec fn lightning_text(name: Seq<char>) -> Seq<char> {
    "A lightning bolt strikes the "@ + name + " with a loud thunder! The damage is "@
        + decimal_text(LIGHTNING_DAMAGE as int) + " hit points."@
}

pub open spec fn no_enemy_text() -> Seq<char> {
    "No enemy is close enough to strike."@
}

pub open spec fn vacant_text(name: Seq<char>) -> Seq<char> {
    "The eyes of "@ + name + " look vacant, as he starts to stumble around!"@
}

pub open spec fn explode_text() -> Seq<char> {
    "The fireball explodes, burning everything within "@ + decimal_text(FIREBALL_RADIUS as int)
        + " tiles!"@
}

pub open spec fn burned_text(name: Seq<char>) -> Seq<char> {
    "The "@ + name + " gets burned for "@ + decimal_text(FIREBALL_DAMAGE as int) + " hit points."@
}

pub open spec fn cannot_use_text(name: Seq<char>) -> Seq<char> {
    "The "@ + name + " cannot be used."@
}

pub open spec fn cancelled_text() -> Seq<char> {
    "Cancelled"@
}

/// `o` with `xp` more experience.
pub open spec fn with_xp(o: Object, xp: int) -> Object {
    Object { fighter: Some(Fighter { xp: (o.fighter->0.xp + xp) as i32, ..o.fighter->0 }), ..o }
}

/// The healing potion's effect on the world `o0` to `o1`.
pub open spec fn heal_cast(
    o0: Seq<Object>,
    o1: Seq<Object>,
    inv: Seq<Object>,
    log0: Seq<(Seq<char>, Color)>,
    log1: Seq<(Seq<char>, Color)>,
    r: UseResult,
) -> bool {
    let p = o0[PLAYER as int];
    match p.fighter {
        None => r == UseResult::Cancelled && o1 == o0 && log1 == log0,
        Some(f) => if f.hp == effective(p, inv, Stat::MaxHp) {
            r == UseResult::Cancelled && o1 == o0 && log1 == log_add(log0, full_health_text(), Color::Red)
        } else {
            &&& r == UseResult::UsedUp
            &&& log1 == log_add(log0, wounds_text(), Color::LightViolet)
            &&& o1 == o0.update(
                PLAYER as int,
                Object {
                    fighter: Some(
                        Fighter {
                            hp: healed_hp(
                                f.hp as int,
                                HEAL_AMOUNT as int,
                                effective(p, inv, Stat::MaxHp),
                            ) as i32,
                            ..f
                        },
                    ),
                    ..p
                },
            )
        },
    }
}

/// The lightning scroll's effect: the nearest monster in view within range is struck, and
/// the player gains the experience of a kill.
pub open spec fn lightning_cast(
    o0: Seq<Object>,
    o1: Seq<Object>,
    fov: Fov,
    log0: Seq<(Seq<char>, Color)>,
    log1: Seq<(Seq<char>, Color)>,
    r: UseResult,
) -> bool {
    ||| exists|t: usize, d: Option<i32>, hit: Object|
        {
            &&& closest_is(o0, fov, LIGHTNING_RANGE as int, Some(t))
            &&& r == UseResult::UsedUp
            &&& #[trigger] took_damage(
                o0[t as int],
                hit,
                LIGHTNING_DAMAGE as int,
                log_add(log0, lightning_text(o0[t as int].name@), Color::LightBlue),
                log1,
                d,
            )
            &&& o1 == match d {
                Some(xp) => o0.update(t as int, hit).update(
                    PLAYER as int,
                    with_xp(o0[PLAYER as int], xp as int),
                ),
                None => o0.update(t as int, hit),
            }
        }
    ||| {
        &&& closest_is(o0, fov, LIGHTNING_RANGE as int, None)
        &&& r == UseResult::Cancelled
        &&& o1 == o0
        &&& log1 == log_add(log0, no_enemy_text(), Color::Red)
    }
}

/// The monster a confusion scroll aimed at `target` affects, if any.
pub open spec fn confuse_target(o0: Seq<Object>, fov: Fov, target: Option<(i32, i32)>, m: int) -> bool {
    &&& target is Some
    &&& target_ok(fov, o0[PLAYER as int], (target->0).0 as int, (target->0).1 as int, Some(CONFUSE_RANGE))
    &&& first_monster_at(o0, (target->0).0 as int, (target->0).1 as int, m)
}

/// The confusion scroll's effect: the targeted monster's behaviour is wrapped in a
/// confusion of `CONFUSE_NUM_TURNS` turns.
pub open spec fn confuse_cast(
    o0: Seq<Object>,
    o1: Seq<Object>,
    fov: Fov,
    target: Option<(i32, i32)>,
    log0: Seq<(Seq<char>, Color)>,
    log1: Seq<(Seq<char>, Color)>,
    r: UseResult,
) -> bool {
    ||| exists|m: int|
        {
            &&& #[trigger] confuse_target(o0, fov, target, m)
            &&& r == UseResult::UsedUp
            &&& log1 == log_add(log0, vacant_text(o0[m].name@), Color::LightGreen)
            &&& o1.len() == o0.len()
            &&& forall|j: int| 0 <= j < o0.len() && j != m ==> o1[j] == o0[j]
            &&& o1[m] == Object { ai: o1[m].ai, ..o0[m] }
            &&& o1[m].ai matches Some(Ai::Confused { previous_ai, num_turns })
            &&& num_turns == CONFUSE_NUM_TURNS
            &&& *previous_ai == match o0[m].ai {
                Some(a) => a,
                None => Ai::Basic,
            }
        }
    ||| {
        &&& forall|m: int| !#[trigger] confuse_target(o0, fov, target, m)
        &&& r == UseResult::Cancelled
        &&& o1 == o0
        &&& log1 == log_add(log0, no_enemy_text(), Color::Red)
    }
}

/// One object's share of a fireball bursting on `(x, y)`.
pub open spec fn burn_step(
    o0: Object,
    o1: Object,
    x: int,
    y: int,
    log0: Seq<(Seq<char>, Color)>,
    log1: Seq<(Seq<char>, Color)>,
    r: Option<i32>,
) -> bool {
    if dist_sq(o0.x as int, o0.y as int, x, y) <= FIREBALL_RADIUS * FIREBALL_RADIUS && o0.fighter is Some {
        took_damage(
            o0,
            o1,
            FIREBALL_DAMAGE as int,
            log_add(log0, burned_text(o0.name@), Color::Orange),
            log1,
            r,
        )
    } else {
        o1 == o0 && log1 == log0 && r is None
    }
}

/// The experience of the kills in `rs`, other than the player's own.
pub open spec fn kills_xp(rs: Seq<Option<i32>>) -> int
    decreases rs.len(),
{
    if rs.len() == 0 {
        0
    } else {
        kills_xp(rs.drop_last()) + if rs.len() - 1 != PLAYER && rs.last() is Some {
            rs.last()->0 as int
        } else {
            0
        }
    }
}

/// The fireball scroll's effect: every fighter within the blast radius of a target tile in
/// view is burned, in list order, and the player gains the experience of the other kills.
pub open spec fn fireball_cast(
    o0: Seq<Object>,
    o1: Seq<Object>,
    fov: Fov,
    target: Option<(i32, i32)>,
    log0: Seq<(Seq<char>, Color)>,
    log1: Seq<(Seq<char>, Color)>,
    r: UseResult,
) -> bool {
    if target is Some && target_ok(fov, o0[PLAYER as int], (target->0).0 as int, (target->0).1 as int, None) {
        let x = (target->0).0 as int;
        let y = (target->0).1 as int;
        &&& r == UseResult::UsedUp
        &&& exists|logs: Seq<Seq<(Seq<char>, Color)>>, rs: Seq<Option<i32>>, burned: Seq<Object>|
            {
                &&& #[trigger] logs.len() == o0.len() + 1
                &&& #[trigger] rs.len() == o0.len()
                &&& #[trigger] burned.len() == o0.len()
                &&& logs[0] == log_add(log0, explode_text(), Color::Orange)
                &&& forall|j: int|
                    0 <= j < o0.len() ==> #[trigger] burn_step(o0[j], burned[j], x, y, logs[j], logs[j + 1], rs[j])
                &&& log1 == logs[o0.len() as int]
                &&& o1 == burned.update(PLAYER as int, with_xp(burned[PLAYER as int], kills_xp(rs)))
            }
    } else {
        r == UseResult::Cancelled && o1 == o0 && log1 == log0
    }
}

fn cast_heal(objects: &mut Vec<Object>, game: &mut Game) -> (r: UseResult)
    requires
        objects_ok(old(objects)@),
        inventory_ok(old(game).inventory@),
    ensures
        heal_cast(old(objects)@, final(objects)@, old(game).inventory@, old(game).log@, final(game).log@, r),
        final(game).map == old(game).map,
        final(game).inventory == old(game).inventory,
        final(game).dungeon_level == old(game).dungeon_level,
        final(game).player_level == old(game).player_level,
{
    proof {
        assert(object_in_limits(objects@[PLAYER as int]));
    }
    if let Some(f) = objects[PLAYER].fighter {
        if f.hp == objects[PLAYER].max_hp(game) {
            game.log.add(String::from_str("You are already at full health."), Color::Red);
            return UseResult::Cancelled;
        }
        game.log.add(String::from_str("Your wounds start to feel better!"), Color::LightViolet);
        objects[PLAYER].heal(HEAL_AMOUNT, game);
        return UseResult::UsedUp;
    }
    UseResult::Cancelled
}

fn cast_lightning(objects: &mut Vec<Object>, game: &mut Game, fov: &Fov) -> (r: UseResult)
    requires
        objects_ok(old(objects)@),
        old(objects)@[PLAYER as int].fighter is Some,
        fov.wf(),
    ensures
        lightning_cast(old(objects)@, final(objects)@, *fov, old(game).log@, final(game).log@, r),
        final(game).map == old(game).map,
        final(game).inventory == old(game).inventory,
        final(game).dungeon_level == old(game).dungeon_level,
        final(game).player_level == old(game).player_level,
{
    let monster_id = closest_monster(LIGHTNING_RANGE, objects, fov);
    if let Some(monster_id) = monster_id {
        let text = joined(
            joined(String::from_str("A lightning bolt strikes the "), objects[monster_id].name.as_str()),
            " with a loud thunder! The damage is ",
        );
        let text = joined(joined(text, int_text(LIGHTNING_DAMAGE).as_str()), " hit points.");
        game.log.add(text, Color::LightBlue);
        let ghost log_m = game.log@;
        proof {
            assert(object_in_limits(objects@[monster_id as int]));
            assert(object_in_limits(objects@[PLAYER as int]));
        }
        let d = objects[monster_id].take_damage(LIGHTNING_DAMAGE, &mut game.log);
        let ghost hit = objects@[monster_id as int];
        let ghost after = objects@;
        assert(after == old(objects)@.update(monster_id as int, hit));
        if let Some(xp) = d {
            let f = objects[PLAYER].fighter.unwrap();
            objects[PLAYER].fighter = Some(Fighter { xp: f.xp + xp, ..f });
            assert(objects@ =~= after.update(PLAYER as int, with_xp(old(objects)@[PLAYER as int], xp as int)));
        }
        assert(log_m == log_add(
            old(game).log@,
            lightning_text(old(objects)@[monster_id as int].name@),
            Color::LightBlue,
        ));
        assert(took_damage(old(objects)@[monster_id as int], hit, LIGHTNING_DAMAGE as int, log_m, game.log@, d));
        assert(closest_is(old(objects)@, *fov, LIGHTNING_RANGE as int, Some(monster_id)));
        UseResult::UsedUp
    } else {
        game.log.add(String::from_str("No enemy is close enough to strike."), Color::Red);
        UseResult::Cancelled
    }
}

fn cast_confuse(objects: &mut Vec<Object>, game: &mut Game, fov: &Fov, target: Option<(i32, i32)>) -> (r:
    UseResult)
    requires
        objects_ok(old(objects)@),
        fov.wf(),
    ensures
        confuse_cast(old(objects)@, final(objects)@, *fov, target, old(game).log@, final(game).log@, r),
        final(game).map == old(game).map,
        final(game).inventory == old(game).inventory,
        final(game).dungeon_level == old(game).dungeon_level,
        final(game).player_level == old(game).player_level,
{
    let mut monster_id: Option<usize> = None;
    if let Some((x, y)) = target {
        if target_tile_ok(fov, objects, x, y, Some(CONFUSE_RANGE)) {
            monster_id = monster_at(objects, x, y);
        }
    }
    if let Some(monster_id) = monster_id {
        let mut old_ai: Option<Ai> = None;
        std::mem::swap(&mut old_ai, &mut objects[monster_id].ai);
        let prev = match old_ai {
            Some(a) => a,
            None => Ai::Basic,
        };
        objects[monster_id].ai = Some(Ai::Confused { previous_ai: Box::new(prev), num_turns: CONFUSE_NUM_TURNS });
        let text = joined(
            joined(String::from_str("The eyes of "), objects[monster_id].name.as_str()),
            " look vacant, as he starts to stumble around!",
        );
        game.log.add(text, Color::LightGreen);
        assert(confuse_target(old(objects)@, *fov, target, monster_id as int));
        UseResult::UsedUp
    } else {
        proof {
            assert forall|m: int| !#[trigger] confuse_target(old(objects)@, *fov, target, m) by {
                if confuse_target(old(objects)@, *fov, target, m) {
                    assert(fighter_at(old(objects)@[m], (target->0).0 as int, (target->0).1 as int));
                }
            }
        }
        game.log.add(String::from_str("No enemy is close enough to strike."), Color::Red);
        UseResult::Cancelled
    }
}

fn cast_fireball(objects: &mut Vec<Object>, game: &mut Game, fov: &Fov, target: Option<(i32, i32)>) -> (r:
    UseResult)
    requires
        objects_ok(old(objects)@),
        old(objects)@[PLAYER as int].fighter is Some,
        old(objects)@[PLAYER as int].fighter->0.on_death == DeathCallback::Player,
        fov.wf(),
    ensures
        fireball_cast(old(objects)@, final(objects)@, *fov, target, old(game).log@, final(game).log@, r),
        final(game).map == old(game).map,
        final(game).inventory == old(game).inventory,
        final(game).dungeon_level == old(game).dungeon_level,
        final(game).player_level == old(game).player_level,
{
    let (x, y) = match target {
        Some(t) => t,
        None => return UseResult::Cancelled,
    };
    if !target_tile_ok(fov, objects, x, y, None) {
        return UseResult::Cancelled;
    }
    let text = joined(
        joined(
            String::from_str("The fireball explodes, burning everything within "),
            int_text(FIREBALL_RADIUS).as_str(),
        ),
        " tiles!",
    );
    game.log.add(text, Color::Orange);
    let ghost o0 = old(objects)@;
    let ghost mut logs: Seq<Seq<(Seq<char>, Color)>> = seq![game.log@];
    let ghost mut rs: Seq<Option<i32>> = Seq::empty();
    let n = objects.len();
    let mut xp_to_gain: i32 = 0;
    let mut id: usize = 0;
    while id < n
        invariant
            n == o0.len(),
            objects_ok(o0),
            o0[PLAYER as int].fighter is Some,
            o0[PLAYER as int].fighter->0.on_death == DeathCallback::Player,
            objects@.len() == n,
            id <= n,
            forall|j: int| id <= j < n ==> objects@[j] == o0[j],
            logs.len() == id + 1,
            rs.len() == id,
            logs[0] == log_add(old(game).log@, explode_text(), Color::Orange),
            logs[id as int] == game.log@,
            forall|j: int|
                0 <= j < id ==> #[trigger] burn_step(
                    o0[j],
                    objects@[j],
                    x as int,
                    y as int,
                    logs[j],
                    logs[j + 1],
                    rs[j],
                ),
            xp_to_gain == kills_xp(rs),
            -(id * STAT_LIMIT) <= xp_to_gain <= id * STAT_LIMIT,
            game.map == old(game).map,
            game.inventory == old(game).inventory,
            game.dungeon_level == old(game).dungeon_level,
            game.player_level == old(game).player_level,
        decreases n - id,
    {
        let ghost log_before = game.log@;
        proof {
            assert(object_in_limits(o0[id as int]));
            assert(id * STAT_LIMIT + STAT_LIMIT <= 1000 * STAT_LIMIT) by (nonlinear_arith)
                requires
                    id < 1000,
            ;
        }
        let near = objects[id].distance_sq(x, y) <= (FIREBALL_RADIUS * FIREBALL_RADIUS) as i128;
        let mut r: Option<i32> = None;
        if near && objects[id].fighter.is_some() {
            let text = joined(
                joined(joined(String::from_str("The "), objects[id].name.as_str()), " gets burned for "),
                int_text(FIREBALL_DAMAGE).as_str(),
            );
            game.log.add(joined(text, " hit points."), Color::Orange);
            r = objects[id].take_damage(FIREBALL_DAMAGE, &mut game.log);
            if let Some(xp) = r {
                if id != PLAYER {
                    xp_to_gain = xp_to_gain + xp;
                }
            }
        }
        proof {
            let rs2 = rs.push(r);
            assert(rs2.drop_last() =~= rs);
            logs = logs.push(game.log@);
            rs = rs2;
            assert(burn_step(o0[id as int], objects@[id as int], x as int, y as int, logs[id as int], logs[id + 1], rs[id as int]));
            assert((id + 1) * STAT_LIMIT == id * STAT_LIMIT + STAT_LIMIT) by (nonlinear_arith);
        }
        id = id + 1;
    }
    let ghost burned = objects@;
    proof {
        assert(burn_step(o0[0], burned[0], x as int, y as int, logs[0], logs[1], rs[0]));
        assert(n * STAT_LIMIT <= 1000 * STAT_LIMIT) by (nonlinear_arith)
            requires
                n <= 1000,
        ;
        assert(fighter_in_limits(o0[0].fighter->0));
    }
    let f = objects[PLAYER].fighter.unwrap();
    objects[PLAYER].fighter = Some(Fighter { xp: f.xp + xp_to_gain, ..f });
    proof {
        assert(objects@ =~= burned.update(PLAYER as int, with_xp(burned[PLAYER as int], kills_xp(rs))));
    }
    UseResult::UsedUp
}

/// Whether the effect of `kind` logs its own reason when it is cancelled.
pub open spec fn explains_cancel(kind: Item, objects: Seq<Object>) -> bool {
    match kind {
        Item::Heal => objects[PLAYER as int].fighter is Some,
        Item::Lightning | Item::Confuse => true,
        _ => false,
    }
}

/// The effect of an item of kind `kind` at inventory index `id`.
pub open spec fn item_effect(
    kind: Item,
    o0: Seq<Object>,
    o1: Seq<Object>,
    inv0: Seq<Object>,
    inv1: Seq<Object>,
    id: int,
    fov: Fov,
    target: Option<(i32, i32)>,
    log0: Seq<(Seq<char>, Color)>,
    log1: Seq<(Seq<char>, Color)>,
    r: UseResult,
) -> bool {
    match kind {
        Item::Heal => heal_cast(o0, o1, inv0, log0, log1, r) && inv1 == inv0,
        Item::Lightning => lightning_cast(o0, o1, fov, log0, log1, r) && inv1 == inv0,
        Item::Confuse => confuse_cast(o0, o1, fov, target, log0, log1, r) && inv1 == inv0,
        Item::Fireball => fireball_cast(o0, o1, fov, target, log0, log1, r) && inv1 == inv0,
        Item::Sword | Item::Shield => toggled(inv0, inv1, id, log0, log1, r) && o1 == o0,
    }
}

/// What `use_item` of inventory item `inventory_id` aimed at `target` did, from world `o0` and session `g0` to `o1` and `g1`.
pub open spec fn use_done(
    o0: Seq<Object>,
    o1: Seq<Object>,
    g0: Game,
    g1: Game,
    fov: Fov,
    inventory_id: int,
    target: Option<(i32, i32)>,
    res: Option<UseResult>,
) -> bool {
    &&& g1.map == g0.map
    &&& g1.dungeon_level == g0.dungeon_level
    &&& g1.player_level == g0.player_level
    &&& ({
            let it = g0.inventory@[inventory_id];
            match it.item {
                None => {
                    &&& res is None
                    &&& o1 == o0
                    &&& g1.inventory@ == g0.inventory@
                    &&& g1.log@ == log_add(g0.log@, cannot_use_text(it.name@), Color::White)
                },
                Some(kind) => res is Some && exists|inv_m: Seq<Object>, log_m: Seq<(Seq<char>, Color)>|
                    {
                        &&& #[trigger] item_effect(
                            kind,
                            o0,
                            o1,
                            g0.inventory@,
                            inv_m,
                            inventory_id,
                            fov,
                            target,
                            g0.log@,
                            log_m,
                            res->0,
                        )
                        &&& match res->0 {
                            UseResult::UsedUp => g1.inventory@ == inv_m.remove(inventory_id)
                                && g1.log@ == log_m,
                            UseResult::UsedAndKept => g1.inventory@ == inv_m && g1.log@
                                == log_m,
                            UseResult::Cancelled => g1.inventory@ == inv_m && g1.log@
                                == if explains_cancel(kind, o0) {
                                log_m
                            } else {
                                log_add(log_m, cancelled_text(), Color::White)
                            },
                        }
                    }
            }
        })
}

/// Uses inventory item `inventory_id` and reports the outcome, `None` for an object that is
/// not an item.
pub(crate) fn apply_item(
    inventory_id: usize,
    objects: &mut Vec<Object>,
    fov: &Fov,
    game: &mut Game,
    target: Option<(i32, i32)>,
) -> (res: Option<UseResult>)
    requires
        inventory_id < old(game).inventory@.len(),
        objects_ok(old(objects)@),
        inventory_ok(old(game).inventory@),
        old(objects)@[PLAYER as int].fighter is Some,
        old(objects)@[PLAYER as int].fighter->0.on_death == DeathCallback::Player,
        fov.wf(),
    ensures
        use_done(
            old(objects)@,
            final(objects)@,
            *old(game),
            *final(game),
            *fov,
            inventory_id as int,
            target,
            res,
        ),
{
    if let Some(item) = game.inventory[inventory_id].item {
        let r = match item {
            Item::Heal => cast_heal(objects, game),
            Item::Lightning => cast_lightning(objects, game, fov),
            Item::Confuse => cast_confuse(objects, game, fov, target),
            Item::Fireball => cast_fireball(objects, game, fov, target),
            Item::Sword | Item::Shield => toggle_equipment(inventory_id, game),
        };
        let ghost inv_m = game.inventory@;
        let ghost log_m = game.log@;
        assert(item_effect(
            item,
            old(objects)@,
            objects@,
            old(game).inventory@,
            inv_m,
            inventory_id as int,
            *fov,
            target,
            old(game).log@,
            log_m,
            r,
        ));
        match r {
            UseResult::UsedUp => {
                game.inventory.remove(inventory_id);
            },
            UseResult::UsedAndKept => {},
            UseResult::Cancelled => {
                let explained = match item {
                    Item::Heal => objects[PLAYER].fighter.is_some(),
                    Item::Lightning | Item::Confuse => true,
                    _ => false,
                };
                if !explained {
                    game.log.add(String::from_str("Cancelled"), Color::White);
                }
            },
        }
        Some(r)
    } else {
        let text = joined(
            joined(String::from_str("The "), game.inventory[inventory_id].name.as_str()),
            " cannot be used.",
        );
        game.log.add(text, Color::White);
        None
    }
}

/// Uses inventory item `inventory_id`; `target` is the tile the front end obtained for an
/// item that needs one (`None` when the player cancelled). A used-up item leaves the
/// inventory; a cancelled use is logged unless the effect said why.
pub fn use_item(
    inventory_id: usize,
    objects: &mut Vec<Object>,
    fov: &Fov,
    game: &mut Game,
    target: Option<(i32, i32)>,
)
    requires
        inventory_id < old(game).inventory@.len(),
        objects_ok(old(objects)@),
        inventory_ok(old(game).inventory@),
        old(objects)@[PLAYER as int].fighter is Some,
        old(objects)@[PLAYER as int].fighter->0.on_death == DeathCallback::Player,
        fov.wf(),
    ensures
        exists|res: Option<UseResult>|
            #[trigger] use_done(
            old(objects)@,
            final(objects)@,
            *old(game),
            *final(game),
            *fov,
            inventory_id as int,
            target,
            res,
        ),
{
    apply_item(inventory_id, objects, fov, game, target);
}


pub open spec fn confuse_prompt() -> Seq<char> {
    "Left-click an enemy to confuse it, or right-click to cancel."@
}

pub open spec fn fireball_prompt() -> Seq<char> {
    "Left-click a target tile for the fireball, or right-click to cancel."@
}

/// For an item that needs a target, logs the prompt and says what target to collect.
pub fn request_target(inventory_id: usize, game: &mut Game) -> (r: Option<TargetRequest>)
    requires
        inventory_id < old(game).inventory@.len(),
    ensures
        final(game).map == old(game).map,
        final(game).inventory == old(game).inventory,
        final(game).dungeon_level == old(game).dungeon_level,
        final(game).player_level == old(game).player_level,
        match old(game).inventory@[inventory_id as int].item {
            Some(Item::Confuse) => {
                &&& r == Some(TargetRequest { max_range: Some(CONFUSE_RANGE), must_be_monster: true })
                &&& final(game).log@ == log_add(old(game).log@, confuse_prompt(), Color::LightCyan)
            },
            Some(Item::Fireball) => {
                &&& r == Some(TargetRequest { max_range: None, must_be_monster: false })
                &&& final(game).log@ == log_add(old(game).log@, fireball_prompt(), Color::LightCyan)
            },
            _ => r is None && final(game).log == old(game).log,
        },
{
    match game.inventory[inventory_id].item {
        Some(Item::Confuse) => {
            game.log.add(
                String::from_str("Left-click an enemy to confuse it, or right-click to cancel."),
                Color::LightCyan,
            );
            Some(TargetRequest { max_range: Some(CONFUSE_RANGE), must_be_monster: true })
        },
        Some(Item::Fireball) => {
            game.log.add(
                String::from_str("Left-click a target tile for the fireball, or right-click to cancel."),
                Color::LightCyan,
            );
            Some(TargetRequest { max_range: None, must_be_monster: false })
        },
        _ => None,
    }
}

/// Putting on an item whose slot is already taken: afterwards the new item is worn and the
/// old one is not, each slot still holds at most one worn item, and every bonus total
/// changes by exactly the new item's bonus minus the old one's, and so does the player's
/// effective stat.
pub proof fn lemma_equip_replaces(
    inv0: Seq<Object>,
    inv1: Seq<Object>,
    a: int,
    b: int,
    log0: Seq<(Seq<char>, Color)>,
    log1: Seq<(Seq<char>, Color)>,
    r: UseResult,
    stat: Stat,
    p: Object,
)
    requires
        toggled(inv0, inv1, b, log0, log1, r),
        slots_unique(inv0),
        0 <= a < inv0.len(),
        0 <= b < inv0.len(),
        inv0[a].item is Some,
        inv0[b].item is Some,
        inv0[b].equipment is Some,
        !inv0[b].equipment->0.equipped,
        worn_in(inv0[a], inv0[b].equipment->0.slot),
    ensures
        r == UseResult::UsedAndKept,
        inv1[a].equipment == Some(Equipment { equipped: false, ..inv0[a].equipment->0 }),
        inv1[b].equipment == Some(Equipment { equipped: true, ..inv0[b].equipment->0 }),
        slots_unique(inv1),
        bonus_total(inv1, stat) == bonus_total(inv0, stat) - item_bonus(inv0[a], stat)
            + item_bonus(inv1[b], stat),
        p.name@ == player_name() ==> effective(p, inv1, stat) == effective(p, inv0, stat)
            - item_bonus(inv0[a], stat) + item_bonus(inv1[b], stat),
{
    let e = inv0[b].equipment->0;
    let s = e.slot;
    let (inv_m, log_m, bb) = choose|inv_m: Seq<Object>, log_m: Seq<(Seq<char>, Color)>, bb: Object|
        {
            &&& ({
                ||| exists|k: int, aa: Object|
                    {
                        &&& #[trigger] first_worn_in(inv0, s, k)
                        &&& #[trigger] equip_effect(inv0[k], aa, log0, log_m, false)
                        &&& inv_m == inv0.update(k, aa)
                    }
                ||| none_worn_in(inv0, s) && inv_m == inv0 && log_m == log0
            })
            &&& #[trigger] equip_effect(inv_m[b], bb, log_m, log1, true)
            &&& inv1 == inv_m.update(b, bb)
        };
    assert(!none_worn_in(inv0, s)) by {
        assert(worn_in(inv0[a], s));
    }
    let (k, aa) = choose|k: int, aa: Object|
        {
            &&& #[trigger] first_worn_in(inv0, s, k)
            &&& #[trigger] equip_effect(inv0[k], aa, log0, log_m, false)
            &&& inv_m == inv0.update(k, aa)
        };
    if k != a {
        assert(inv0[k].equipment is Some && inv0[a].equipment is Some);
    }
    assert(k == a);
    assert(a != b);
    assert(inv_m[b] == inv0[b]);
    lemma_bonus_update(inv0, a, aa, stat);
    lemma_bonus_update(inv_m, b, bb, stat);
    assert forall|i: int, j: int|
        0 <= i < inv1.len() && 0 <= j < inv1.len() && i != j && #[trigger] inv1[i].equipment is Some
            && #[trigger] inv1[j].equipment is Some && inv1[i].equipment->0.equipped
            && inv1[j].equipment->0.equipped implies inv1[i].equipment->0.slot
        != inv1[j].equipment->0.slot by {
        if i != b && j != b {
            assert(inv1[i] == inv0[i] && inv1[j] == inv0[j]);
        } else if i == b {
            assert(inv1[j] == inv0[j]);
            assert(inv0[a].equipment is Some && inv0[j].equipment is Some);
        } else {
            assert(inv1[i] == inv0[i]);
            assert(inv0[a].equipment is Some && inv0[i].equipment is Some);
        }
    }
}

/// A confusion scroll aimed at a basic monster it may reach confuses exactly that monster:
/// the scroll is used up, the monster's behaviour becomes a confusion of
/// `CONFUSE_NUM_TURNS` turns over basic behaviour, and nothing else in the world changes.
pub proof fn lemma_confuse_basic(
    o0: Seq<Object>,
    o1: Seq<Object>,
    fov: Fov,
    target: Option<(i32, i32)>,
    log0: Seq<(Seq<char>, Color)>,
    log1: Seq<(Seq<char>, Color)>,
    r: UseResult,
    m: int,
)
    requires
        confuse_cast(o0, o1, fov, target, log0, log1, r),
        confuse_target(o0, fov, target, m),
        o0[m].ai == Some(Ai::Basic),
    ensures
        r == UseResult::UsedUp,
        o1.len() == o0.len(),
        o1[m] == (Object {
            ai: Some(Ai::Confused { previous_ai: Box::new(Ai::Basic), num_turns: CONFUSE_NUM_TURNS }),
            ..o0[m]
        }),
        forall|j: int| 0 <= j < o0.len() && j != m ==> o1[j] == o0[j],
        log1 == log_add(log0, vacant_text(o0[m].name@), Color::LightGreen),
{
    let m2 = choose|m2: int|
        {
            &&& #[trigger] confuse_target(o0, fov, target, m2)
            &&& r == UseResult::UsedUp
            &&& log1 == log_add(log0, vacant_text(o0[m2].name@), Color::LightGreen)
            &&& o1.len() == o0.len()
            &&& forall|j: int| 0 <= j < o0.len() && j != m2 ==> o1[j] == o0[j]
            &&& o1[m2] == Object { ai: o1[m2].ai, ..o0[m2] }
            &&& o1[m2].ai matches Some(Ai::Confused { previous_ai, num_turns })
            &&& num_turns == CONFUSE_NUM_TURNS
            &&& *previous_ai == match o0[m2].ai {
                Some(a) => a,
                None => Ai::Basic,
            }
        };
    let (x, y) = ((target->0).0 as int, (target->0).1 as int);
    if m2 < m {
        assert(fighter_at(o0[m2], x, y));
    } else if m < m2 {
        assert(fighter_at(o0[m], x, y));
    }
    assert(m2 == m);
}

} // verus!
