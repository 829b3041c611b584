//! The session: new games, level-ups, descending, commands and the monsters' phase.

use crate::fov::Fov;
use crate::item::{
    apply_item, drop_done, drop_item, pick_item_up, pick_up_done, use_done, Equipment, Item, Slot,
    UseResult,
};
use crate::log::{decimal_text, int_text, log_add, Color, Messages};
use crate::map::{generated, half_toward_zero, in_map, make_map, Rect, TileMap, MAP_HEIGHT, MAP_WIDTH};
use crate::object::{
    ai_take_turn, ai_turn_done, effective, healed_hp, inventory_ok, joined, move_or_attack_done, object_in_limits, objects_ok,
    player_move_or_attack, DeathCallback, Fighter, Object, PlayerAction, Stat, STAT_LIMIT,
};
use crate::PLAYER;
use vstd::prelude::*;

verus! {

pub const LEVEL_UP_BASE: i32 = 200;
pub const LEVEL_UP_FACTOR: i32 = 150;

/// The session: grid, log, inventory and progression.
pub struct Game {
    pub map: TileMap,
    pub log: Messages,
    pub inventory: Vec<Object>,
    pub dungeon_level: u32,
    pub player_level: i32,
}

/// Experience needed to leave player level `level`.
pub open spec fn level_up_threshold(level: int) -> int {
    LEVEL_UP_BASE + level * LEVEL_UP_FACTOR
}

/// The player `p` after resting: healed by half the effective maximum.
pub open spec fn rested(p: Object, inv: Seq<Object>) -> Object {
    let max = effective(p, inv, Stat::MaxHp);
    match p.fighter {
        None => p,
        Some(f) => Object {
            fighter: Some(Fighter { hp: healed_hp(f.hp as int, half_toward_zero(max), max) as i32, ..f }),
            ..p
        },
    }
}

/// The player's experience, 0 without a fighter.
pub open spec fn player_xp(p: Object) -> int {
    match p.fighter {
        Some(f) => f.xp as int,
        None => 0,
    }
}

pub open spec fn welcome_text() -> Seq<char> {
    "Welcome stranger! Prepare to perish in the Tombs of the Ancient Kings."@
}

pub open spec fn level_up_text(level: int) -> Seq<char> {
    "Your battle skills grow stronger! You reached level "@ + decimal_text(level) + "!"@
}

pub open spec fn rest_text() -> Seq<char> {
    "You take a moment to rest, and recover your strength."@
}

pub open spec fn descend_text() -> Seq<char> {
    "After a rare moment of peace, you descend deeper into the heart of the dungeon..."@
}

/// The player as a new game creates it, standing at `(x, y)`.
pub open spec fn fresh_player(o: Object, x: int, y: int) -> bool {
    &&& o.x == x && o.y == y
    &&& o.name@ == "player"@ && o.char == '@' && o.color == Color::White
    &&& o.blocks && o.alive && !o.always_visible
    &&& o.fighter == Some(
        Fighter {
            hp: 100,
            base_max_hp: 100,
            base_defense: 1,
            base_power: 2,
            on_death: DeathCallback::Player,
            xp: 0,
        },
    )
    &&& o.ai is None && o.item is None && o.equipment is None
}

/// The dagger a new game starts with, worn in the left hand.
pub open spec fn starting_dagger(o: Object) -> bool {
    &&& o.name@ == "dagger"@ && o.char == '-' && o.color == Color::Sky
    &&& !o.blocks && !o.alive && !o.always_visible
    &&& o.fighter is None && o.ai is None
    &&& o.item == Some(Item::Sword)
    &&& o.equipment == Some(
        Equipment {
            slot: Slot::LeftHand,
            equipped: true,
            power_bonus: 2,
            defense_bonus: 0,
            max_hp_bonus: 0,
        },
    )
}

/// Starts a new game at depth 1: the player, the first level, a worn dagger and a welcome.
pub fn new_game() -> (r: (Vec<Object>, Game))
    ensures
        exists|rooms: Seq<Rect>, player0: Object|
            {
                &&& fresh_player(player0, 0, 0)
                &&& #[trigger] generated(r.1.map, rooms, player0, r.0@, 1)
            },
        r.1.inventory@.len() == 1,
        starting_dagger(r.1.inventory@[0]),
        r.1.log@ == log_add(Seq::empty(), welcome_text(), Color::Red),
        r.1.dungeon_level == 1,
        r.1.player_level == 1,
{
    let mut player = Object::new(0, 0, '@', "player", Color::White, true);
    player.alive = true;
    player.fighter = Some(
        Fighter {
            base_max_hp: 100,
            hp: 100,
            base_defense: 1,
            base_power: 2,
            on_death: DeathCallback::Player,
            xp: 0,
        },
    );
    let ghost player0 = player;
    let mut objects = Vec::new();
    objects.push(player);
    let map = make_map(&mut objects, 1);
    let mut game = Game {
        map,
        log: Messages::new(),
        inventory: Vec::new(),
        dungeon_level: 1,
        player_level: 1,
    };
    let mut dagger = Object::new(0, 0, '-', "dagger", Color::Sky, false);
    dagger.item = Some(Item::Sword);
    dagger.equipment = Some(
        Equipment {
            equipped: true,
            slot: Slot::LeftHand,
            max_hp_bonus: 0,
            defense_bonus: 0,
            power_bonus: 2,
        },
    );
    game.inventory.push(dagger);
    game.log.add(
        String::from_str("Welcome stranger! Prepare to perish in the Tombs of the Ancient Kings."),
        Color::Red,
    );
    let r = (objects, game);
    proof {
        let rooms = choose|rooms: Seq<Rect>| #[trigger] generated(r.1.map, rooms, player0, r.0@, 1);
        assert(fresh_player(player0, 0, 0) && generated(r.1.map, rooms, player0, r.0@, 1));
    }
    r
}

/// Experience the player needs to leave the current level.
pub fn level_up_xp(game: &Game) -> (r: i32)
    requires
        0 <= game.player_level <= STAT_LIMIT,
    ensures
        r == level_up_threshold(game.player_level as int),
{
    LEVEL_UP_BASE + game.player_level * LEVEL_UP_FACTOR
}

/// Whether the player has the experience for a level-up.
pub fn level_up_due(objects: &Vec<Object>, game: &Game) -> (r: bool)
    requires
        objects@.len() > 0,
        0 <= game.player_level <= STAT_LIMIT,
    ensures
        r == (player_xp(objects@[PLAYER as int]) >= level_up_threshold(game.player_level as int)),
{
    let xp = match objects[PLAYER].fighter {
        Some(f) => f.xp,
        None => 0,
    };
    xp >= level_up_xp(game)
}

/// When the player has the experience for it, gains one level and the stat picked by
/// `choice`: 0 for +20 maximum and current hit points, 1 for +1 power, 2 for +1 defense.
/// The threshold is taken from the experience; one level at most per call.
pub fn level_up(objects: &mut Vec<Object>, game: &mut Game, choice: usize)
    requires
        old(objects)@.len() > 0,
        choice < 3,
        0 <= old(game).player_level < STAT_LIMIT,
        object_in_limits(old(objects)@[PLAYER as int]),
    ensures
        final(game).map == old(game).map,
        final(game).inventory == old(game).inventory,
        final(game).dungeon_level == old(game).dungeon_level,
        ({
            let p = old(objects)@[PLAYER as int];
            let t = level_up_threshold(old(game).player_level as int);
            if player_xp(p) >= t {
                let f = p.fighter->0;
                &&& final(game).player_level == old(game).player_level + 1
                &&& final(game).log@ == log_add(
                    old(game).log@,
                    level_up_text(old(game).player_level + 1),
                    Color::Yellow,
                )
                &&& final(objects)@ == old(objects)@.update(
                    PLAYER as int,
                    Object {
                        fighter: Some(
                            if choice == 0 {
                                Fighter {
                                    xp: (f.xp - t) as i32,
                                    base_max_hp: (f.base_max_hp + 20) as i32,
                                    hp: (f.hp + 20) as i32,
                                    ..f
                                }
                            } else if choice == 1 {
                                Fighter { xp: (f.xp - t) as i32, base_power: (f.base_power + 1) as i32, ..f }
                            } else {
                                Fighter {
                                    xp: (f.xp - t) as i32,
                                    base_defense: (f.base_defense + 1) as i32,
                                    ..f
                                }
                            },
                        ),
                        ..p
                    },
                )
            } else {
                &&& final(objects)@ == old(objects)@
                &&& final(game).log == old(game).log
                &&& final(game).player_level == old(game).player_level
            }
        }),
{
    if !level_up_due(objects, game) {
        return;
    }
    let level_up_xp = level_up_xp(game);
    game.player_level = game.player_level + 1;
    let text = joined(
        joined(
            String::from_str("Your battle skills grow stronger! You reached level "),
            int_text(game.player_level).as_str(),
        ),
        "!",
    );
    game.log.add(text, Color::Yellow);
    let f = objects[PLAYER].fighter.unwrap();
    let raised = if choice == 0 {
        Fighter { xp: f.xp - level_up_xp, base_max_hp: f.base_max_hp + 20, hp: f.hp + 20, ..f }
    } else if choice == 1 {
        Fighter { xp: f.xp - level_up_xp, base_power: f.base_power + 1, ..f }
    } else {
        Fighter { xp: f.xp - level_up_xp, base_defense: f.base_defense + 1, ..f }
    };
    objects[PLAYER].fighter = Some(raised);
}

/// What `next_level` did, from world `o0` and session `g0` to `o1`, `g1` and the new field-of-view map `fov`.
pub open spec fn descend_done(
    o0: Seq<Object>,
    o1: Seq<Object>,
    g0: Game,
    g1: Game,
    fov: Fov,
) -> bool {
    &&& g1.inventory == g0.inventory
    &&& g1.player_level == g0.player_level
    &&& g1.dungeon_level == g0.dungeon_level + 1
    &&& g1.log@ == log_add(
            log_add(g0.log@, rest_text(), Color::Violet),
            descend_text(),
            Color::Red,
        )
    &&& exists|rooms: Seq<Rect>|
            #[trigger] generated(
                g1.map,
                rooms,
                rested(o0[PLAYER as int], g0.inventory@),
                o1,
                g1.dungeon_level,
            )
    &&& fov.wf()
    &&& forall|x: int, y: int|
            in_map(x, y) ==> #[trigger] fov.blocks_at(x, y) == g1.map.tile_at(x, y).block_sight
                && !fov.visible_at(x, y)
}

/// Rests the player (healing half the effective maximum), descends one level and builds
/// it; returns the field-of-view map of the new level.
#[verifier::spinoff_prover]
#[verifier::rlimit(40)]
pub fn next_level(game: &mut Game, objects: &mut Vec<Object>) -> (r: Fov)
    requires
        objects_ok(old(objects)@),
        inventory_ok(old(game).inventory@),
        old(game).dungeon_level < u32::MAX,
    ensures
        descend_done(
            old(objects)@,
            final(objects)@,
            *old(game),
            *final(game),
            r,
        ),
{
    game.log.add(String::from_str("You take a moment to rest, and recover your strength."), Color::Violet);
    proof {
        assert(object_in_limits(objects@[PLAYER as int]));
        crate::object::lemma_effective_bound(objects@[PLAYER as int], game.inventory@, Stat::MaxHp);
    }
    let max_hp = objects[PLAYER].max_hp(game);
    let heal_hp = if max_hp >= 0 {
        max_hp / 2
    } else {
        -((-max_hp) / 2)
    };
    objects[PLAYER].heal(heal_hp, game);
    let ghost rested = objects@[PLAYER as int];
    proof {
        let p = old(objects)@[PLAYER as int];
        let max = effective(p, old(game).inventory@, Stat::MaxHp);
        assert(max_hp == max);
        assert(heal_hp == half_toward_zero(max as int));
        assert(rested == crate::game::rested(p, old(game).inventory@));
    }
    game.log.add(
        String::from_str(
            "After a rare moment of peace, you descend deeper into the heart of the dungeon...",
        ),
        Color::Red,
    );
    game.dungeon_level = game.dungeon_level + 1;
    let map = make_map(objects, game.dungeon_level);
    let r = Fov::from_map(&map);
    let ghost m = map;
    game.map = map;
    proof {
        let rooms = choose|rooms: Seq<Rect>| #[trigger] generated(m, rooms, rested, objects@, game.dungeon_level);
        assert(generated(game.map, rooms, rested, objects@, game.dungeon_level));
        assert forall|x: int, y: int| in_map(x, y) implies #[trigger] r.blocks_at(x, y)
            == game.map.tile_at(x, y).block_sight && !r.visible_at(x, y) by {
            assert(r.blocks_at(x, y) == m.tile_at(x, y).block_sight);
        }
    }
    r
}

/// A command from the front end.
#[derive(Clone, Copy, Debug, PartialEq, Eq)]
pub enum Command {
    /// Step (or attack) by one of the eight compass offsets; `(0, 0)` waits.
    Move { dx: i32, dy: i32 },
    /// Pick up the item under the player.
    PickUp,
    /// Use an inventory item, with the target the front end obtained for it, if any.
    Use { index: usize, target: Option<(i32, i32)> },
    /// Drop an inventory item.
    Drop { index: usize },
    /// Take the stairs under the player.
    Descend,
    /// Show the character sheet.
    CharacterSheet,
    /// Leave the game.
    Exit,
    /// Anything else.
    Nothing,
}

/// A state the engine accepts: the world and inventory within limits, the grid well formed,
/// a player who dies as the player, and room for one more level.
pub open spec fn engine_ok(objects: Seq<Object>, game: Game) -> bool {
    &&& objects_ok(objects)
    &&& inventory_ok(game.inventory@)
    &&& game.map.wf()
    &&& objects[PLAYER as int].fighter is Some
    &&& objects[PLAYER as int].fighter->0.on_death == DeathCallback::Player
    &&& game.dungeon_level < u32::MAX
    &&& 0 <= game.player_level < STAT_LIMIT
}

fn limits_ok(o: &Object) -> (r: bool)
    ensures
        r == object_in_limits(*o),
{
    let lim = STAT_LIMIT;
    let f_ok = match o.fighter {
        Some(f) => -lim <= f.hp && f.hp <= lim && -lim <= f.base_max_hp && f.base_max_hp <= lim
            && -lim <= f.base_defense && f.base_defense <= lim && -lim <= f.base_power
            && f.base_power <= lim && -lim <= f.xp && f.xp <= lim,
        None => true,
    };
    let e_ok = match o.equipment {
        Some(e) => -lim <= e.power_bonus && e.power_bonus <= lim && -lim <= e.defense_bonus
            && e.defense_bonus <= lim && -lim <= e.max_hp_bonus && e.max_hp_bonus <= lim,
        None => true,
    };
    f_ok && e_ok
}

fn object_ok(o: &Object) -> (r: bool)
    ensures
        r == (object_in_limits(*o) && in_map(o.x as int, o.y as int) && (o.ai is Some ==> o.fighter is Some)),
{
    let placed = 0 <= o.x && o.x < MAP_WIDTH && 0 <= o.y && o.y < MAP_HEIGHT;
    let ai_ok = o.ai.is_none() || o.fighter.is_some();
    limits_ok(o) && placed && ai_ok
}

/// Whether `objects` and `game` form a state the engine accepts.
pub fn check_engine(objects: &Vec<Object>, game: &Game) -> (r: bool)
    ensures
        r == engine_ok(objects@, *game),
{
    if objects.len() == 0 || objects.len() > crate::object::MAX_OBJECTS {
        return false;
    }
    let mut i: usize = 0;
    while i < objects.len()
        invariant
            i <= objects@.len(),
            forall|j: int|
                0 <= j < i ==> object_in_limits(#[trigger] objects@[j]) && in_map(
                    objects@[j].x as int,
                    objects@[j].y as int,
                ) && (objects@[j].ai is Some ==> objects@[j].fighter is Some),
        decreases objects@.len() - i,
    {
        if !object_ok(&objects[i]) {
            return false;
        }
        i = i + 1;
    }
    if game.inventory.len() > crate::object::MAX_INVENTORY {
        return false;
    }
    let mut k: usize = 0;
    while k < game.inventory.len()
        invariant
            k <= game.inventory@.len(),
            forall|j: int| 0 <= j < k ==> object_in_limits(#[trigger] game.inventory@[j]),
        decreases game.inventory@.len() - k,
    {
        if !limits_ok(&game.inventory[k]) {
            return false;
        }
        k = k + 1;
    }
    if game.map.tiles.len() != (MAP_WIDTH * MAP_HEIGHT) as usize {
        return false;
    }
    let player_ok = match objects[PLAYER].fighter {
        Some(f) => f.on_death == DeathCallback::Player,
        None => false,
    };
    player_ok && game.dungeon_level < u32::MAX && 0 <= game.player_level && game.player_level
        < STAT_LIMIT
}

/// `t` is the first object other than the player that is an item lying under the player.
pub open spec fn first_item_here(objects: Seq<Object>, t: int) -> bool {
    let p = objects[PLAYER as int];
    &&& 0 < t < objects.len()
    &&& objects[t].x == p.x && objects[t].y == p.y && objects[t].item is Some
    &&& forall|j: int|
        0 < j < t ==> !(#[trigger] objects[j].x == p.x && objects[j].y == p.y && objects[j].item is Some)
}

/// The first object other than the player that is an item lying under the player.
fn item_here(objects: &Vec<Object>) -> (r: Option<usize>)
    requires
        objects@.len() > 0,
    ensures
        match r {
            Some(t) => first_item_here(objects@, t as int),
            None => forall|t: int| !#[trigger] first_item_here(objects@, t),
        },
{
    let (px, py) = objects[PLAYER].pos();
    let mut i: usize = 1;
    while i < objects.len()
        invariant
            1 <= i <= objects@.len(),
            px == objects@[PLAYER as int].x && py == objects@[PLAYER as int].y,
            forall|j: int|
                0 < j < i ==> !(#[trigger] objects@[j].x == px && objects@[j].y == py
                    && objects@[j].item is Some),
        decreases objects@.len() - i,
    {
        if objects[i].x == px && objects[i].y == py && objects[i].item.is_some() {
            return Some(i);
        }
        i = i + 1;
    }
    assert forall|t: int| !#[trigger] first_item_here(objects@, t) by {
        if first_item_here(objects@, t) {
            assert(!(objects@[t].x == px && objects@[t].y == py && objects@[t].item is Some));
        }
    }
    None
}

/// Whether stairs lie under the player.
pub open spec fn on_stairs(objects: Seq<Object>) -> bool {
    let p = objects[PLAYER as int];
    exists|i: int|
        0 <= i < objects.len() && (#[trigger] objects[i]).x == p.x && objects[i].y == p.y
            && objects[i].name@ == "stairs"@
}

/// Carries out one player command and says whether it took a turn: moving, attacking,
/// waiting, picking up an item and using one (unless the use was cancelled) take one;
/// dropping, descending and looking at the character sheet do not. A dead player can only
/// leave.
pub fn handle_command(command: Command, objects: &mut Vec<Object>, game: &mut Game, fov: &mut Fov) -> (r:
    PlayerAction)
    requires
        engine_ok(old(objects)@, *old(game)),
        old(fov).wf(),
    ensures
        ({
            let o0 = old(objects)@;
            let o1 = final(objects)@;
            let g0 = *old(game);
            let g1 = *final(game);
            let unchanged = o1 == o0 && g1 == g0 && *final(fov) == *old(fov);
            if command == Command::Exit {
                r == PlayerAction::Exit && unchanged
            } else if !o0[PLAYER as int].alive {
                r == PlayerAction::DidntTakeTurn && unchanged
            } else {
                match command {
                    Command::Move { dx, dy } => {
                        &&& r == PlayerAction::TookTurn
                        &&& if dx == 0 && dy == 0 {
                            unchanged
                        } else {
                            move_or_attack_done(o0, o1, g0, g1, PLAYER as int, dx as int, dy as int)
                                && *final(fov) == *old(fov)
                        }
                    },
                    Command::PickUp => {
                        ||| exists|t: int|
                            {
                                &&& #[trigger] first_item_here(o0, t)
                                &&& r == PlayerAction::TookTurn
                                &&& pick_up_done(o0, o1, g0, g1, t)
                                &&& *final(fov) == *old(fov)
                            }
                        ||| {
                            &&& forall|t: int| !#[trigger] first_item_here(o0, t)
                            &&& r == PlayerAction::DidntTakeTurn
                            &&& unchanged
                        }
                    },
                    Command::Use { index, target } => if index < g0.inventory@.len() {
                        &&& exists|res: Option<UseResult>|
                            {
                                &&& #[trigger] use_done(o0, o1, g0, g1, *old(fov), index as int, target, res)
                                &&& r == if res == Some(UseResult::UsedUp) || res == Some(
                                    UseResult::UsedAndKept,
                                ) {
                                    PlayerAction::TookTurn
                                } else {
                                    PlayerAction::DidntTakeTurn
                                }
                            }
                        &&& *final(fov) == *old(fov)
                    } else {
                        r == PlayerAction::DidntTakeTurn && unchanged
                    },
                    Command::Drop { index } => if index < g0.inventory@.len() {
                        &&& r == PlayerAction::DidntTakeTurn
                        &&& drop_done(o0, o1, g0, g1, index as int)
                        &&& *final(fov) == *old(fov)
                    } else {
                        r == PlayerAction::DidntTakeTurn && unchanged
                    },
                    Command::Descend => if on_stairs(o0) {
                        r == PlayerAction::DidntTakeTurn && descend_done(o0, o1, g0, g1, *final(fov))
                    } else {
                        r == PlayerAction::DidntTakeTurn && unchanged
                    },
                    _ => r == PlayerAction::DidntTakeTurn && unchanged,
                }
            }
        }),
{
    if let Command::Exit = command {
        return PlayerAction::Exit;
    }
    if !objects[PLAYER].alive {
        return PlayerAction::DidntTakeTurn;
    }
    match command {
        Command::Move { dx, dy } => {
            if dx != 0 || dy != 0 {
                player_move_or_attack(PLAYER, dx, dy, objects, game);
            }
            PlayerAction::TookTurn
        },
        Command::PickUp => match item_here(objects) {
            Some(item_id) => {
                pick_item_up(item_id, objects, game);
                PlayerAction::TookTurn
            },
            None => PlayerAction::DidntTakeTurn,
        },
        Command::Use { index, target } => {
            if index < game.inventory.len() {
                match apply_item(index, objects, fov, game, target) {
                    Some(UseResult::UsedUp) | Some(UseResult::UsedAndKept) => PlayerAction::TookTurn,
                    _ => PlayerAction::DidntTakeTurn,
                }
            } else {
                PlayerAction::DidntTakeTurn
            }
        },
        Command::Drop { index } => {
            if index < game.inventory.len() {
                drop_item(index, objects, game);
            }
            PlayerAction::DidntTakeTurn
        },
        Command::Descend => {
            let (px, py) = objects[PLAYER].pos();
            let stairs = String::from_str("stairs");
            let mut here = false;
            let mut i: usize = 0;
            while i < objects.len()
                invariant
                    i <= objects@.len(),
                    stairs@ == "stairs"@,
                    px == objects@[PLAYER as int].x && py == objects@[PLAYER as int].y,
                    here == exists|j: int|
                        0 <= j < i && (#[trigger] objects@[j]).x == px && objects@[j].y == py
                            && objects@[j].name@ == "stairs"@,
                decreases objects@.len() - i,
            {
                if objects[i].x == px && objects[i].y == py && objects[i].name == stairs {
                    here = true;
                }
                i = i + 1;
            }
            if here {
                let new_fov = next_level(game, objects);
                *fov = new_fov;
            }
            PlayerAction::DidntTakeTurn
        },
        _ => PlayerAction::DidntTakeTurn,
    }
}

/// Step `j` of the monsters' phase took `o0`, `g0` to `o1`, `g1`: object `j` played its turn
/// when it is a monster with a behaviour, and nothing happened otherwise.
pub open spec fn monster_step(
    o0: Seq<Object>,
    o1: Seq<Object>,
    g0: Game,
    g1: Game,
    fov: Fov,
    j: int,
) -> bool {
    if j != PLAYER && o0[j].ai is Some {
        ai_turn_done(o0, o1, g0, g1, fov, j)
    } else {
        o1 == o0 && g1 == g0
    }
}

/// The first `k` steps of the monsters' phase, through the states `os` and `gs`.
pub open spec fn monster_steps(os: Seq<Seq<Object>>, gs: Seq<Game>, fov: Fov, k: int) -> bool {
    &&& os.len() > k && gs.len() > k
    &&& forall|j: int| 0 <= j < k ==> #[trigger] monster_step(os[j], os[j + 1], gs[j], gs[j + 1], fov, j)
    &&& forall|j: int| 0 <= j <= k ==> (#[trigger] os[j]).len() == os[0].len()
}

/// After a player action, lets every monster with a behaviour act once, in list order, when
/// the player is alive and the action took a turn. Before each monster acts the state is
/// checked against the engine's limits; the phase stops at a monster where it fails, and the
/// result says whether every monster got its turn.
pub fn monsters_take_turns(action: PlayerAction, objects: &mut Vec<Object>, game: &mut Game, fov: &Fov) -> (r:
    bool)
    requires
        old(objects)@.len() > 0,
        fov.wf(),
    ensures
        !(old(objects)@[PLAYER as int].alive && action == PlayerAction::TookTurn) ==> r
            && final(objects)@ == old(objects)@ && *final(game) == *old(game),
        old(objects)@[PLAYER as int].alive && action == PlayerAction::TookTurn ==> exists|
            os: Seq<Seq<Object>>,
            gs: Seq<Game>,
            k: int,
        |
            {
                &&& 0 <= k <= old(objects)@.len()
                &&& os[0] == old(objects)@ && gs[0] == *old(game)
                &&& #[trigger] monster_steps(os, gs, *fov, k)
                &&& final(objects)@ == os[k] && *final(game) == gs[k]
                &&& r == (k == old(objects)@.len())
                &&& k < old(objects)@.len() ==> k != PLAYER && os[k][k].ai is Some && !engine_ok(
                    os[k],
                    gs[k],
                )
            },
{
    if !(objects[PLAYER].alive && action == PlayerAction::TookTurn) {
        return true;
    }
    let n = objects.len();
    let ghost mut os: Seq<Seq<Object>> = seq![objects@];
    let ghost mut gs: Seq<Game> = seq![*game];
    let mut id: usize = 0;
    while id < n
        invariant
            n == old(objects)@.len(),
            old(objects)@[PLAYER as int].alive && action == PlayerAction::TookTurn,
            fov.wf(),
            0 <= id <= n,
            os[0] == old(objects)@,
            gs[0] == *old(game),
            monster_steps(os, gs, *fov, id as int),
            os.len() == id + 1,
            gs.len() == id + 1,
            objects@ == os[id as int],
            *game == gs[id as int],
        decreases n - id,
    {
        let ghost o_before = objects@;
        let ghost g_before = *game;
        if id != PLAYER && objects[id].ai.is_some() {
            if !check_engine(objects, game) {
                proof {
                    assert(monster_steps(os, gs, *fov, id as int));
                }
                return false;
            }
            ai_take_turn(id, objects, game, fov);
        }
        proof {
            assert(monster_step(o_before, objects@, g_before, *game, *fov, id as int));
            let os2 = os.push(objects@);
            let gs2 = gs.push(*game);
            assert forall|j: int| 0 <= j < id + 1 implies #[trigger] monster_step(
                os2[j],
                os2[j + 1],
                gs2[j],
                gs2[j + 1],
                *fov,
                j,
            ) by {
                if j < id {
                    assert(os2[j] == os[j] && os2[j + 1] == os[j + 1]);
                    assert(gs2[j] == gs[j] && gs2[j + 1] == gs[j + 1]);
                }
            }
            assert forall|j: int| 0 <= j <= id + 1 implies (#[trigger] os2[j]).len() == os2[0].len() by {
                if j <= id {
                    assert(os2[j] == os[j]);
                }
            }
            os = os2;
            gs = gs2;
        }
        id = id + 1;
    }
    true
}

} // verus!
