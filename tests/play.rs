use tombs::fov::Fov;
use tombs::game::{
    check_engine, handle_command, level_up, level_up_due, level_up_xp, monsters_take_turns,
    new_game, next_level, Command, Game,
};
use tombs::item::{
    drop_item, get_equipment_in_slot, monster_at, pick_item_up, request_target, target_tile_ok,
    toggle_equipment, use_item, Equipment, Item, Slot, UseResult, CONFUSE_NUM_TURNS,
};
use tombs::log::{Color, Messages, MSG_HEIGHT};
use tombs::map::{Tile, TileMap, MAP_HEIGHT, MAP_WIDTH};
use tombs::object::{
    ai_basic, ai_take_turn, move_by, move_towards, player_move_or_attack, Ai, DeathCallback,
    Fighter, Object, PlayerAction,
};

fn fighter(hp: i32, power: i32, defense: i32, xp: i32, on_death: DeathCallback) -> Fighter {
    Fighter { hp, base_max_hp: hp, base_defense: defense, base_power: power, on_death, xp }
}

fn player_at(x: i32, y: i32) -> Object {
    let mut p = Object::new(x, y, '@', "player", Color::White, true);
    p.alive = true;
    p.fighter = Some(fighter(100, 2, 1, 0, DeathCallback::Player));
    p
}

fn orc_at(x: i32, y: i32) -> Object {
    let mut o = Object::new(x, y, 'o', "orc", Color::DesaturatedGreen, true);
    o.alive = true;
    o.fighter = Some(fighter(20, 4, 0, 35, DeathCallback::Monster));
    o.ai = Some(Ai::Basic);
    o
}

fn open_map() -> TileMap {
    let mut m = TileMap::new();
    for x in 1..MAP_WIDTH - 1 {
        for y in 1..MAP_HEIGHT - 1 {
            m.set_tile(x, y, Tile::empty());
        }
    }
    m
}

fn game_on(map: TileMap) -> Game {
    Game { map, log: Messages::new(), inventory: vec![], dungeon_level: 1, player_level: 1 }
}

fn gear(name: &str, slot: Slot, equipped: bool, power: i32, defense: i32) -> Object {
    let mut o = Object::new(0, 0, '/', name, Color::Sky, false);
    o.item = Some(Item::Sword);
    o.equipment = Some(Equipment {
        slot,
        equipped,
        power_bonus: power,
        defense_bonus: defense,
        max_hp_bonus: 0,
    });
    o
}

fn last_log(g: &Game) -> &str {
    g.log.entries.last().unwrap().0.as_str()
}

#[test]
fn attack_deals_power_minus_defense() {
    let mut g = game_on(open_map());
    let mut a = orc_at(1, 1);
    a.fighter = Some(fighter(20, 10, 0, 0, DeathCallback::Monster));
    let mut t = orc_at(2, 1);
    t.name = String::from("goblin");
    t.fighter = Some(fighter(20, 1, 4, 5, DeathCallback::Monster));
    a.attack(&mut t, &mut g);
    assert_eq!(t.fighter.unwrap().hp, 14);
    assert_eq!(last_log(&g), "orc attacks goblin for 6 hit points.");
    assert_eq!(g.log.entries.last().unwrap().1, Color::Red);
}

#[test]
fn attack_without_effect_leaves_hp() {
    let mut g = game_on(open_map());
    let mut a = orc_at(1, 1);
    a.fighter = Some(fighter(20, 10, 0, 0, DeathCallback::Monster));
    let mut t = orc_at(2, 1);
    t.fighter = Some(fighter(20, 1, 12, 5, DeathCallback::Monster));
    a.attack(&mut t, &mut g);
    assert_eq!(t.fighter.unwrap().hp, 20);
    assert_eq!(last_log(&g), "orc attacks orc but it has no effect!");
}

#[test]
fn kill_credits_attacker() {
    let mut g = game_on(open_map());
    let mut a = player_at(1, 1);
    a.fighter = Some(fighter(100, 30, 0, 7, DeathCallback::Player));
    let mut t = orc_at(2, 1);
    a.attack(&mut t, &mut g);
    assert_eq!(a.fighter.unwrap().xp, 42);
    assert!(t.fighter.is_none() && !t.blocks && t.char == '%');
    assert_eq!(t.name, "remains of orc");
    assert_eq!(last_log(&g), "orc is dead! You gain 35 experience points.");
}

#[test]
fn take_damage_kills_player_once() {
    let mut log = Messages::new();
    let mut p = player_at(1, 1);
    p.fighter = Some(fighter(5, 2, 1, 77, DeathCallback::Player));
    assert_eq!(p.take_damage(8, &mut log), Some(77));
    assert!(!p.alive);
    assert_eq!(p.fighter.unwrap().hp, -3);
    assert_eq!(p.char, '%');
    assert_eq!(log.entries.len(), 1);
    assert_eq!(log.entries[0].0, "You died!");
    assert_eq!(p.take_damage(4, &mut log), None);
    assert_eq!(p.fighter.unwrap().hp, -7);
    assert_eq!(log.entries.len(), 1);
}

#[test]
fn take_damage_kills_monster_once() {
    let mut log = Messages::new();
    let mut o = orc_at(1, 1);
    o.fighter = Some(fighter(5, 4, 0, 35, DeathCallback::Monster));
    assert_eq!(o.take_damage(8, &mut log), Some(35));
    assert!(!o.alive && o.fighter.is_none() && o.ai.is_none());
    assert_eq!(o.take_damage(8, &mut log), None);
    assert_eq!(log.entries.len(), 1);
}

#[test]
fn non_positive_damage_changes_nothing() {
    let mut log = Messages::new();
    let mut o = orc_at(1, 1);
    assert_eq!(o.take_damage(0, &mut log), None);
    assert_eq!(o.take_damage(-5, &mut log), None);
    assert_eq!(o.fighter.unwrap().hp, 20);
}

#[test]
fn heal_is_capped_at_effective_max() {
    let mut g = game_on(open_map());
    g.inventory.push({
        let mut helm = gear("helm", Slot::Head, true, 0, 0);
        helm.equipment.as_mut().unwrap().max_hp_bonus = 10;
        helm
    });
    let mut p = player_at(1, 1);
    p.fighter.as_mut().unwrap().hp = 50;
    assert_eq!(p.max_hp(&g), 110);
    p.heal(40, &g);
    assert_eq!(p.fighter.unwrap().hp, 90);
    p.heal(40, &g);
    assert_eq!(p.fighter.unwrap().hp, 110);
    let mut o = orc_at(1, 1);
    o.fighter.as_mut().unwrap().hp = 15;
    o.heal(40, &g);
    assert_eq!(o.fighter.unwrap().hp, 20);
}

#[test]
fn bonuses_count_for_player_only() {
    let mut g = game_on(open_map());
    g.inventory.push(gear("sword", Slot::RightHand, true, 3, 0));
    g.inventory.push(gear("shield", Slot::LeftHand, true, 0, 1));
    g.inventory.push(gear("spare", Slot::Head, false, 9, 9));
    let p = player_at(1, 1);
    assert_eq!(p.power(&g), 5);
    assert_eq!(p.defense(&g), 2);
    let o = orc_at(2, 2);
    assert_eq!(o.power(&g), 4);
    assert_eq!(o.defense(&g), 0);
}

#[test]
fn equip_and_unequip_messages() {
    let mut log = Messages::new();
    let mut s = gear("sword", Slot::RightHand, false, 3, 0);
    s.equip(&mut log);
    assert!(s.equipment.unwrap().equipped);
    assert_eq!(log.entries[0].0, "Equipped sword on right hand.");
    s.equip(&mut log);
    assert_eq!(log.entries.len(), 1);
    s.unequip(&mut log);
    assert!(!s.equipment.unwrap().equipped);
    assert_eq!(log.entries[1].0, "Dequipped sword from right hand.");
    let mut rock = Object::new(0, 0, '*', "rock", Color::White, false);
    rock.equip(&mut log);
    assert_eq!(log.entries[2].0, "Can't equip rock because it's not an Item.");
    rock.item = Some(Item::Heal);
    rock.equip(&mut log);
    assert_eq!(log.entries[3].0, "Can't equip rock because it's not an Equipment.");
}

#[test]
fn slot_names() {
    assert_eq!(Slot::LeftHand.to_text(), "left hand");
    assert_eq!(Slot::RightHand.to_text(), "right hand");
    assert_eq!(Slot::Head.to_text(), "head");
}

#[test]
fn equipping_replaces_worn_item() {
    let mut g = game_on(open_map());
    g.inventory.push(gear("dagger", Slot::RightHand, true, 2, 0));
    g.inventory.push(gear("sword", Slot::RightHand, false, 3, 1));
    let p = player_at(1, 1);
    assert_eq!(p.power(&g), 4);
    assert_eq!(get_equipment_in_slot(Slot::RightHand, &g.inventory), Some(0));
    assert_eq!(toggle_equipment(1, &mut g), UseResult::UsedAndKept);
    assert!(!g.inventory[0].equipment.unwrap().equipped);
    assert!(g.inventory[1].equipment.unwrap().equipped);
    assert_eq!(p.power(&g), 5);
    assert_eq!(p.defense(&g), 2);
    assert_eq!(get_equipment_in_slot(Slot::RightHand, &g.inventory), Some(1));
    assert_eq!(toggle_equipment(1, &mut g), UseResult::UsedAndKept);
    assert_eq!(get_equipment_in_slot(Slot::RightHand, &g.inventory), None);
    let mut potion = Object::new(0, 0, '!', "healing potion", Color::Violet, false);
    potion.item = Some(Item::Heal);
    g.inventory.push(potion);
    assert_eq!(toggle_equipment(2, &mut g), UseResult::Cancelled);
}

#[test]
fn level_up_adds_hit_points() {
    let mut g = game_on(open_map());
    let mut objs = vec![player_at(1, 1)];
    objs[0].fighter.as_mut().unwrap().xp = 350;
    assert_eq!(level_up_xp(&g), 350);
    assert!(level_up_due(&objs, &g));
    level_up(&mut objs, &mut g, 0);
    let f = objs[0].fighter.unwrap();
    assert_eq!((f.base_max_hp, f.hp, f.xp), (120, 120, 0));
    assert_eq!(g.player_level, 2);
    assert_eq!(last_log(&g), "Your battle skills grow stronger! You reached level 2!");
    assert!(!level_up_due(&objs, &g));
    level_up(&mut objs, &mut g, 1);
    assert_eq!(g.player_level, 2);
}

#[test]
fn level_up_power_and_defense() {
    let mut g = game_on(open_map());
    let mut objs = vec![player_at(1, 1)];
    objs[0].fighter.as_mut().unwrap().xp = 400;
    level_up(&mut objs, &mut g, 1);
    assert_eq!(objs[0].fighter.unwrap().base_power, 3);
    assert_eq!(objs[0].fighter.unwrap().xp, 50);
    objs[0].fighter.as_mut().unwrap().xp = 1000;
    level_up(&mut objs, &mut g, 2);
    assert_eq!(objs[0].fighter.unwrap().base_defense, 2);
    assert_eq!(objs[0].fighter.unwrap().xp, 500);
    assert_eq!(g.player_level, 3);
}

#[test]
fn log_keeps_the_latest_messages() {
    let mut log = Messages::new();
    for i in 0..(MSG_HEIGHT + 2) {
        log.add(format!("m{}", i), Color::White);
    }
    assert_eq!(log.entries.len(), MSG_HEIGHT);
    assert_eq!(log.entries[0].0, "m2");
    assert_eq!(log.entries[MSG_HEIGHT - 1].0, format!("m{}", MSG_HEIGHT + 1));
}

#[test]
fn fresh_game_then_pick_up_and_drink() {
    let (mut objs, mut g) = new_game();
    assert_eq!(g.dungeon_level, 1);
    assert_eq!(g.player_level, 1);
    assert_eq!(g.inventory.len(), 1);
    assert_eq!(g.inventory[0].name, "dagger");
    assert!(g.inventory[0].equipment.unwrap().equipped);
    assert_eq!(
        g.log.entries[0].0,
        "Welcome stranger! Prepare to perish in the Tombs of the Ancient Kings."
    );
    let (px, py) = objs[0].pos();
    assert!(!g.map.tile(px, py).blocked);
    let mut fov = Fov::from_map(&g.map);
    fov.recompute(px, py, 10);
    let mut potion = Object::new(px, py, '!', "healing potion", Color::Violet, false);
    potion.item = Some(Item::Heal);
    potion.always_visible = true;
    objs.retain(|o| o.name == "player" || o.name == "stairs");
    objs.push(potion);
    assert!(check_engine(&objs, &g));
    let n = objs.len();
    assert_eq!(handle_command(Command::PickUp, &mut objs, &mut g, &mut fov), PlayerAction::TookTurn);
    assert_eq!(objs.len(), n - 1);
    assert_eq!(g.inventory.len(), 2);
    assert_eq!(g.inventory[1].name, "healing potion");
    assert_eq!(last_log(&g), "You picked up a healing potion!");
    assert_eq!(g.log.entries.last().unwrap().1, Color::Green);
    let full = Command::Use { index: 1, target: None };
    assert_eq!(handle_command(full, &mut objs, &mut g, &mut fov), PlayerAction::DidntTakeTurn);
    assert_eq!(g.inventory.len(), 2);
    objs[0].fighter.as_mut().unwrap().hp = 50;
    let cmd = Command::Use { index: 1, target: None };
    assert_eq!(handle_command(cmd, &mut objs, &mut g, &mut fov), PlayerAction::TookTurn);
    assert_eq!(objs[0].fighter.unwrap().hp, 90);
    assert_eq!(g.inventory.len(), 1);
    assert_eq!(last_log(&g), "Your wounds start to feel better!");
}

#[test]
fn healing_at_full_health_is_cancelled() {
    let mut g = game_on(open_map());
    let mut potion = Object::new(0, 0, '!', "healing potion", Color::Violet, false);
    potion.item = Some(Item::Heal);
    g.inventory.push(potion);
    let mut objs = vec![player_at(5, 5)];
    let fov = Fov::from_map(&g.map);
    use_item(0, &mut objs, &fov, &mut g, None);
    assert_eq!(g.inventory.len(), 1);
    assert_eq!(last_log(&g), "You are already at full health.");
}

#[test]
fn unusable_item_is_reported() {
    let mut g = game_on(open_map());
    g.inventory.push(Object::new(0, 0, '*', "rock", Color::White, false));
    let mut objs = vec![player_at(5, 5)];
    let fov = Fov::from_map(&g.map);
    use_item(0, &mut objs, &fov, &mut g, None);
    assert_eq!(last_log(&g), "The rock cannot be used.");
    assert_eq!(g.inventory.len(), 1);
}

#[test]
fn full_inventory_refuses_pick_up() {
    let mut g = game_on(open_map());
    for _ in 0..26 {
        g.inventory.push(gear("stick", Slot::Head, false, 0, 0));
    }
    let mut objs = vec![player_at(5, 5), gear("sword", Slot::RightHand, false, 3, 0)];
    pick_item_up(1, &mut objs, &mut g);
    assert_eq!(objs.len(), 2);
    assert_eq!(g.inventory.len(), 26);
    assert_eq!(last_log(&g), "Your inventory is full, cannot pick up sword.");
}

#[test]
fn pick_up_puts_on_into_free_slot_and_drop_takes_off() {
    let mut g = game_on(open_map());
    let mut objs = vec![player_at(5, 5), gear("sword", Slot::RightHand, false, 3, 0)];
    pick_item_up(1, &mut objs, &mut g);
    assert!(g.inventory[0].equipment.unwrap().equipped);
    assert_eq!(last_log(&g), "Equipped sword on right hand.");
    objs.push(gear("blade", Slot::RightHand, false, 4, 0));
    pick_item_up(1, &mut objs, &mut g);
    assert!(!g.inventory[1].equipment.unwrap().equipped);
    drop_item(0, &mut objs, &mut g);
    let dropped = objs.last().unwrap();
    assert_eq!(dropped.name, "sword");
    assert_eq!(dropped.pos(), (5, 5));
    assert!(!dropped.equipment.unwrap().equipped);
    assert_eq!(last_log(&g), "You dropped a sword.");
    assert_eq!(g.inventory.len(), 1);
}

#[test]
fn moving_respects_walls_and_blockers() {
    let m = open_map();
    let mut objs = vec![player_at(1, 1), orc_at(3, 1)];
    move_by(0, -1, 0, &m, &mut objs);
    assert_eq!(objs[0].pos(), (1, 1));
    move_by(0, 1, 0, &m, &mut objs);
    assert_eq!(objs[0].pos(), (2, 1));
    move_by(0, 1, 0, &m, &mut objs);
    assert_eq!(objs[0].pos(), (2, 1));
    move_by(0, 1, 1, &m, &mut objs);
    assert_eq!(objs[0].pos(), (3, 2));
}

#[test]
fn move_towards_rounds_direction() {
    let m = open_map();
    let mut objs = vec![player_at(30, 30), orc_at(10, 10)];
    move_towards(1, 30, 30, &m, &mut objs);
    assert_eq!(objs[1].pos(), (11, 11));
    move_towards(1, 30, 12, &m, &mut objs);
    assert_eq!(objs[1].pos(), (12, 11));
    move_towards(1, 13, 30, &m, &mut objs);
    assert_eq!(objs[1].pos(), (12, 12));
}

#[test]
fn bumping_into_a_monster_attacks_it() {
    let mut g = game_on(open_map());
    let mut objs = vec![player_at(5, 5), orc_at(6, 5)];
    player_move_or_attack(0, 1, 0, &mut objs, &mut g);
    assert_eq!(objs[0].pos(), (5, 5));
    assert_eq!(objs[1].fighter.unwrap().hp, 18);
    assert_eq!(last_log(&g), "player attacks orc for 2 hit points.");
    player_move_or_attack(0, 0, 1, &mut objs, &mut g);
    assert_eq!(objs[0].pos(), (5, 6));
}

#[test]
fn basic_monster_chases_then_strikes() {
    let mut g = game_on(open_map());
    let mut objs = vec![player_at(5, 5), orc_at(9, 5)];
    let mut fov = Fov::from_map(&g.map);
    fov.recompute(5, 5, 10);
    assert_eq!(ai_basic(1, &mut objs, &fov, &mut g), Ai::Basic);
    assert_eq!(objs[1].pos(), (8, 5));
    objs[1].set_pos(6, 6);
    ai_basic(1, &mut objs, &fov, &mut g);
    assert_eq!(objs[0].fighter.unwrap().hp, 97);
    assert_eq!(last_log(&g), "orc attacks player for 3 hit points.");
    let mut dark = Fov::new();
    dark.reset();
    objs[1].set_pos(20, 20);
    ai_basic(1, &mut objs, &dark, &mut g);
    assert_eq!(objs[1].pos(), (20, 20));
}

#[test]
fn confusion_wears_off_after_its_turns() {
    let mut g = game_on(open_map());
    let mut objs = vec![player_at(10, 10), orc_at(14, 10)];
    let mut fov = Fov::from_map(&g.map);
    fov.recompute(10, 10, 10);
    let mut scroll = Object::new(0, 0, '#', "scroll of confusion", Color::LightYellow, false);
    scroll.item = Some(Item::Confuse);
    g.inventory.push(scroll);
    let request = request_target(0, &mut g).unwrap();
    assert_eq!(request.max_range, Some(8));
    assert!(request.must_be_monster);
    assert!(target_tile_ok(&fov, &objs, 14, 10, request.max_range));
    assert!(!target_tile_ok(&fov, &objs, 19, 10, request.max_range));
    assert_eq!(monster_at(&objs, 14, 10), Some(1));
    use_item(0, &mut objs, &fov, &mut g, Some((14, 10)));
    assert!(g.inventory.is_empty());
    assert_eq!(last_log(&g), "The eyes of orc look vacant, as he starts to stumble around!");
    match &objs[1].ai {
        Some(Ai::Confused { previous_ai, num_turns }) => {
            assert_eq!(**previous_ai, Ai::Basic);
            assert_eq!(*num_turns, CONFUSE_NUM_TURNS);
        }
        other => panic!("not confused: {:?}", other),
    }
    let mut recoveries = 0;
    for turn in 0..(CONFUSE_NUM_TURNS + 5) {
        objs[1].set_pos(30, 30);
        let before = g.log.entries.len();
        let last_before = g.log.entries.last().map(|e| e.0.clone());
        ai_take_turn(1, &mut objs, &mut g, &fov);
        let logged = g.log.entries.len() != before || g.log.entries.last().map(|e| e.0.clone()) != last_before;
        if logged && last_log(&g) == "The orc is no longer confused!" {
            recoveries += 1;
            assert_eq!(turn, CONFUSE_NUM_TURNS + 1);
        }
        if turn <= CONFUSE_NUM_TURNS {
            assert!(matches!(objs[1].ai, Some(Ai::Confused { .. })));
        } else {
            assert_eq!(objs[1].ai, Some(Ai::Basic));
        }
    }
    assert_eq!(recoveries, 1);
}

#[test]
fn confusion_without_target_is_cancelled() {
    let mut g = game_on(open_map());
    let mut objs = vec![player_at(10, 10), orc_at(14, 10)];
    let fov = Fov::from_map(&g.map);
    let mut scroll = Object::new(0, 0, '#', "scroll of confusion", Color::LightYellow, false);
    scroll.item = Some(Item::Confuse);
    g.inventory.push(scroll);
    use_item(0, &mut objs, &fov, &mut g, None);
    assert_eq!(g.inventory.len(), 1);
    assert_eq!(last_log(&g), "No enemy is close enough to strike.");
    assert_eq!(objs[1].ai, Some(Ai::Basic));
}

#[test]
fn lightning_hits_nearest_visible_monster() {
    let mut g = game_on(open_map());
    let mut objs = vec![player_at(10, 10), orc_at(14, 10), orc_at(12, 11), orc_at(11, 13)];
    objs[2].name = String::from("near");
    let mut fov = Fov::from_map(&g.map);
    fov.recompute(10, 10, 10);
    let mut scroll = Object::new(0, 0, '#', "scroll of lightning bolt", Color::LightYellow, false);
    scroll.item = Some(Item::Lightning);
    g.inventory.push(scroll);
    use_item(0, &mut objs, &fov, &mut g, None);
    assert!(g.inventory.is_empty());
    assert_eq!(objs[2].name, "remains of near");
    assert_eq!(objs[0].fighter.unwrap().xp, 35);
    assert_eq!(objs[1].fighter.unwrap().hp, 20);
    assert_eq!(objs[3].fighter.unwrap().hp, 20);
}

#[test]
fn lightning_with_nothing_near_is_cancelled() {
    let mut g = game_on(open_map());
    let mut objs = vec![player_at(10, 10), orc_at(16, 10)];
    let mut fov = Fov::from_map(&g.map);
    fov.recompute(10, 10, 10);
    let mut scroll = Object::new(0, 0, '#', "scroll of lightning bolt", Color::LightYellow, false);
    scroll.item = Some(Item::Lightning);
    g.inventory.push(scroll);
    use_item(0, &mut objs, &fov, &mut g, None);
    assert_eq!(g.inventory.len(), 1);
    assert_eq!(last_log(&g), "No enemy is close enough to strike.");
}

#[test]
fn fireball_burns_everything_in_radius() {
    let mut g = game_on(open_map());
    let mut objs = vec![
        player_at(10, 10),
        orc_at(20, 10),
        orc_at(22, 12),
        orc_at(25, 10),
        orc_at(24, 10),
    ];
    objs[1].fighter.as_mut().unwrap().hp = 10;
    objs[2].fighter.as_mut().unwrap().hp = 30;
    let mut fov = Fov::from_map(&g.map);
    fov.recompute(10, 10, 20);
    let mut scroll = Object::new(0, 0, '#', "scroll of fireball", Color::LightYellow, false);
    scroll.item = Some(Item::Fireball);
    g.inventory.push(scroll);
    let request = request_target(0, &mut g).unwrap();
    assert_eq!(request.max_range, None);
    use_item(0, &mut objs, &fov, &mut g, Some((21, 10)));
    assert!(g.inventory.is_empty());
    assert!(objs[1].fighter.is_none());
    assert_eq!(objs[1].name, "remains of orc");
    assert_eq!(objs[2].fighter.unwrap().hp, 5);
    assert!(objs[2].alive);
    assert_eq!(objs[3].fighter.unwrap().hp, 20);
    assert!(objs[4].fighter.is_none());
    assert_eq!(objs[0].fighter.unwrap().hp, 100);
    assert_eq!(objs[0].fighter.unwrap().xp, 70);
    assert!(g.log.entries.iter().any(|e| e.0 == "The orc gets burned for 25 hit points."));
}

#[test]
fn fireball_cancelled_keeps_scroll() {
    let mut g = game_on(open_map());
    let mut objs = vec![player_at(10, 10)];
    let fov = Fov::from_map(&g.map);
    let mut scroll = Object::new(0, 0, '#', "scroll of fireball", Color::LightYellow, false);
    scroll.item = Some(Item::Fireball);
    g.inventory.push(scroll);
    use_item(0, &mut objs, &fov, &mut g, None);
    assert_eq!(g.inventory.len(), 1);
    assert_eq!(last_log(&g), "Cancelled");
}

#[test]
fn dead_player_only_exits() {
    let mut g = game_on(open_map());
    let mut objs = vec![player_at(10, 10)];
    objs[0].alive = false;
    let mut fov = Fov::from_map(&g.map);
    let cmd = Command::Move { dx: 1, dy: 0 };
    assert_eq!(handle_command(cmd, &mut objs, &mut g, &mut fov), PlayerAction::DidntTakeTurn);
    assert_eq!(objs[0].pos(), (10, 10));
    assert_eq!(handle_command(Command::Exit, &mut objs, &mut g, &mut fov), PlayerAction::Exit);
}

#[test]
fn descending_builds_the_next_level() {
    let mut g = game_on(open_map());
    let mut objs = vec![player_at(10, 10)];
    objs[0].fighter.as_mut().unwrap().hp = 20;
    let mut stairs = Object::new(10, 10, '<', "stairs", Color::White, false);
    stairs.always_visible = true;
    objs.push(stairs);
    let mut fov = Fov::from_map(&g.map);
    assert_eq!(handle_command(Command::Descend, &mut objs, &mut g, &mut fov), PlayerAction::DidntTakeTurn);
    assert_eq!(g.dungeon_level, 2);
    assert_eq!(objs[0].fighter.unwrap().hp, 70);
    assert_eq!(objs.last().unwrap().name, "stairs");
    let (px, py) = objs[0].pos();
    assert!(!g.map.tile(px, py).blocked);
    fov.recompute(px, py, 10);
    assert!(fov.is_in_fov(px, py));
    let fresh = next_level(&mut g, &mut objs);
    assert_eq!(g.dungeon_level, 3);
    assert!(!fresh.is_in_fov(px, py));
}

#[test]
fn engine_check_rejects_out_of_limit_stats() {
    let g = game_on(open_map());
    let mut objs = vec![player_at(10, 10)];
    assert!(check_engine(&objs, &g));
    objs[0].fighter.as_mut().unwrap().hp = 2_000_000;
    assert!(!check_engine(&objs, &g));
    objs[0].fighter.as_mut().unwrap().hp = 10;
    objs[0].x = -1;
    assert!(!check_engine(&objs, &g));
}

#[test]
fn monsters_act_only_after_a_turn() {
    let mut g = game_on(open_map());
    let mut objs = vec![player_at(5, 5), orc_at(9, 5), orc_at(6, 6)];
    let mut fov = Fov::from_map(&g.map);
    fov.recompute(5, 5, 10);
    assert!(monsters_take_turns(PlayerAction::DidntTakeTurn, &mut objs, &mut g, &fov));
    assert_eq!(objs[1].pos(), (9, 5));
    assert!(monsters_take_turns(PlayerAction::TookTurn, &mut objs, &mut g, &fov));
    assert_eq!(objs[1].pos(), (8, 5));
    assert_eq!(objs[0].fighter.unwrap().hp, 97);
    objs[0].alive = false;
    assert!(monsters_take_turns(PlayerAction::TookTurn, &mut objs, &mut g, &fov));
    assert_eq!(objs[1].pos(), (8, 5));
}

#[test]
fn monsters_stop_when_limits_are_exceeded() {
    let mut g = game_on(open_map());
    let mut objs = vec![player_at(5, 5), orc_at(9, 5)];
    objs[1].fighter.as_mut().unwrap().xp = 5_000_000;
    let mut fov = Fov::from_map(&g.map);
    fov.recompute(5, 5, 10);
    assert!(!monsters_take_turns(PlayerAction::TookTurn, &mut objs, &mut g, &fov));
    assert_eq!(objs[1].pos(), (9, 5));
}
