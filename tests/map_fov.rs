use tombs::fov::Fov;
use tombs::map::{
    from_dungeon_level, is_blocked, make_map, place_drawn, place_objects, place_one, select_rooms, Rect, Tile, TileMap, Transition,
    MAP_HEIGHT, MAP_WIDTH,
};
use tombs::log::{int_text, Color};
use tombs::object::{Fighter, DeathCallback, Object};

fn player_at(x: i32, y: i32) -> Object {
    let mut p = Object::new(x, y, '@', "player", Color::White, true);
    p.alive = true;
    p.fighter = Some(Fighter {
        hp: 100,
        base_max_hp: 100,
        base_defense: 1,
        base_power: 2,
        on_death: DeathCallback::Player,
        xp: 0,
    });
    p
}

fn open_map() -> TileMap {
    let mut m = TileMap::new();
    for x in 1..MAP_WIDTH - 1 {
        for y in 1..MAP_HEIGHT - 1 {
            m.set_tile(x, y, Tile::empty());
        }
    }
    m
}

#[test]
fn tile_constructors() {
    let e = Tile::empty();
    assert!(!e.blocked && !e.block_sight && !e.explored);
    let w = Tile::wall();
    assert!(w.blocked && w.block_sight && !w.explored);
}

#[test]
fn rect_new_and_center() {
    let r = Rect::new(2, 3, 6, 8);
    assert_eq!((r.x1, r.y1, r.x2, r.y2), (2, 3, 8, 11));
    assert_eq!(r.center(), (5, 7));
}

#[test]
fn rect_intersection_includes_touching() {
    let a = Rect::new(0, 0, 5, 5);
    let touching = Rect::new(5, 5, 3, 3);
    let apart = Rect::new(6, 0, 3, 3);
    assert!(a.intersects_with(&touching));
    assert!(touching.intersects_with(&a));
    assert!(!a.intersects_with(&apart));
}

#[test]
fn depth_table_lookup() {
    let table = [
        Transition { level: 1, value: 2 },
        Transition { level: 4, value: 3 },
        Transition { level: 6, value: 5 },
    ];
    assert_eq!(from_dungeon_level(&table, 0), 0);
    assert_eq!(from_dungeon_level(&table, 1), 2);
    assert_eq!(from_dungeon_level(&table, 5), 3);
    assert_eq!(from_dungeon_level(&table, 9), 5);
    assert_eq!(from_dungeon_level(&[], 3), 0);
}

#[test]
fn blocking_by_tile_and_object() {
    let m = open_map();
    let mut objs = vec![player_at(5, 5)];
    assert!(is_blocked(0, 0, &m, &objs));
    assert!(!is_blocked(6, 5, &m, &objs));
    assert!(is_blocked(5, 5, &m, &objs));
    objs[0].blocks = false;
    assert!(!is_blocked(5, 5, &m, &objs));
}

#[test]
fn placed_objects_stay_inside_room_within_caps() {
    let mut m = TileMap::new();
    let room = Rect::new(10, 10, 8, 8);
    for x in 11..18 {
        for y in 11..18 {
            m.set_tile(x, y, Tile::empty());
        }
    }
    let mut total = 0;
    let mut spots = std::collections::HashSet::new();
    for _ in 0..50 {
        let mut objs = vec![player_at(1, 1)];
        place_objects(&room, &m, &mut objs, 1);
        total += objs.len() - 1;
        for o in &objs[1..] {
            spots.insert((o.x, o.y));
        }
        // depth 1: at most 2 monsters and 1 item
        assert!(objs.len() <= 1 + 3);
        for o in &objs[1..] {
            assert!(o.x > 10 && o.x < 18 && o.y > 10 && o.y < 18);
            let name = o.name.as_str();
            assert!(name == "orc" || name == "healing potion", "unexpected {}", name);
        }
    }
    assert!(total > 0);
    assert!(spots.len() > 1);
}

fn reachable(m: &TileMap, from: (i32, i32), to: (i32, i32)) -> bool {
    let mut seen = vec![false; (MAP_WIDTH * MAP_HEIGHT) as usize];
    let mut stack = vec![from];
    while let Some((x, y)) = stack.pop() {
        if (x, y) == to {
            return true;
        }
        let i = (x * MAP_HEIGHT + y) as usize;
        if seen[i] {
            continue;
        }
        seen[i] = true;
        for (dx, dy) in [(1, 0), (-1, 0), (0, 1), (0, -1)] {
            let (nx, ny) = (x + dx, y + dy);
            if nx >= 0 && nx < MAP_WIDTH && ny >= 0 && ny < MAP_HEIGHT && !m.tile(nx, ny).blocked {
                stack.push((nx, ny));
            }
        }
    }
    false
}

#[test]
fn generated_level_connects_player_to_stairs() {
    for level in [1u32, 3, 6, 9] {
        let mut objs = vec![player_at(0, 0)];
        let m = make_map(&mut objs, level);
        let p = &objs[0];
        assert!(!m.tile(p.x, p.y).blocked);
        assert_eq!(p.name, "player");
        let stairs = objs.last().unwrap();
        assert_eq!(stairs.name, "stairs");
        assert!(stairs.always_visible && !stairs.blocks);
        assert!(!m.tile(stairs.x, stairs.y).blocked);
        assert!(reachable(&m, (p.x, p.y), (stairs.x, stairs.y)));
        for o in &objs[1..objs.len() - 1] {
            assert!(!m.tile(o.x, o.y).blocked);
            assert!(o.fighter.is_some() || o.item.is_some());
        }
        // the grid's border stays solid
        for x in 0..MAP_WIDTH {
            assert!(m.tile(x, 0).blocked && m.tile(x, MAP_HEIGHT - 1).blocked);
        }
    }
}

#[test]
fn generated_level_drops_everything_but_player() {
    let mut objs = vec![player_at(3, 3), player_at(4, 4), player_at(5, 5)];
    objs[1].name = String::from("other");
    let _m = make_map(&mut objs, 1);
    assert_eq!(objs[0].name, "player");
    assert!(objs[1..].iter().all(|o| o.name != "other"));
}

#[test]
fn fov_new_sees_nothing() {
    let f = Fov::new();
    assert!(!f.is_in_fov(10, 10));
}

#[test]
fn fov_origin_always_visible() {
    let m = open_map();
    let mut f = Fov::from_map(&m);
    f.recompute(10, 10, 0);
    assert!(f.is_in_fov(10, 10));
    assert!(!f.is_in_fov(11, 10));
    f.recompute(10, 10, 10);
    assert!(f.is_in_fov(10, 10));
    assert!(f.is_in_fov(20, 10));
    assert!(!f.is_in_fov(21, 10));
    assert!(f.is_in_fov(17, 17));
    assert!(!f.is_in_fov(18, 18));
}

#[test]
fn fov_grows_with_radius() {
    let mut m = open_map();
    for y in 5..15 {
        m.set_tile(14, y, Tile::wall());
    }
    m.set_tile(9, 12, Tile::wall());
    let mut small = Fov::from_map(&m);
    let mut large = Fov::from_map(&m);
    small.recompute(10, 10, 4);
    large.recompute(10, 10, 9);
    let mut more = false;
    for x in 0..MAP_WIDTH {
        for y in 0..MAP_HEIGHT {
            if small.is_in_fov(x, y) {
                assert!(large.is_in_fov(x, y));
            } else if large.is_in_fov(x, y) {
                more = true;
            }
        }
    }
    assert!(more);
}

#[test]
fn fov_wall_hides_what_is_behind() {
    let mut m = open_map();
    m.set_tile(12, 10, Tile::wall());
    let mut f = Fov::from_map(&m);
    f.recompute(10, 10, 10);
    assert!(f.is_in_fov(11, 10));
    assert!(f.is_in_fov(12, 10));
    assert!(!f.is_in_fov(13, 10));
    assert!(!f.is_in_fov(16, 10));
    f.reset();
    assert!(!f.is_in_fov(10, 10));
    assert!(!f.is_in_fov(11, 10));
}

#[test]
fn fov_copies_layer_once() {
    let m = open_map();
    let mut f = Fov::from_map(&m);
    let mut changed = open_map();
    changed.set_tile(12, 10, Tile::wall());
    // the FOV map keeps the layer it was built from
    f.recompute(10, 10, 5);
    assert!(f.is_in_fov(13, 10));
    let mut g = Fov::from_map(&changed);
    g.recompute(10, 10, 5);
    assert!(!g.is_in_fov(13, 10));
}

#[test]
fn rect_center_of_negative_rect() {
    assert_eq!(Rect::new(-5, -4, 2, 1).center(), (-4, -3));
    assert_eq!(Rect::new(-3, 0, 2, 3).center(), (-2, 1));
    assert_eq!(Rect::new(-4, 0, 1, 3).center(), (-3, 1));
}

fn walled_room() -> (TileMap, Rect) {
    let mut m = TileMap::new();
    let room = Rect::new(10, 10, 6, 6);
    for x in 11..16 {
        for y in 11..16 {
            m.set_tile(x, y, Tile::empty());
        }
    }
    (m, room)
}

#[test]
fn place_one_takes_first_free_cell() {
    let (m, room) = walled_room();
    let mut objs = vec![player_at(12, 12)];
    // outside the room, then occupied by the player, then free
    place_one(&room, &m, &mut objs, &vec![(10, 12), (12, 12), (13, 14), (14, 14)], 1, true);
    assert_eq!(objs.len(), 2);
    assert_eq!(objs[1].pos(), (13, 14));
    assert_eq!(objs[1].name, "troll");
    place_one(&room, &m, &mut objs, &vec![(13, 14), (9, 9)], 0, true);
    assert_eq!(objs.len(), 2);
    place_one(&room, &m, &mut objs, &vec![(11, 11)], 4, false);
    assert_eq!(objs[2].name, "sword");
    assert_eq!(objs[2].pos(), (11, 11));
}

#[test]
fn place_drawn_places_monsters_then_items_in_order() {
    let (m, room) = walled_room();
    let mut objs = vec![player_at(1, 1)];
    let monsters = vec![(vec![(12, 12)], 0usize), (vec![(12, 12), (13, 12)], 0usize)];
    let items = vec![(vec![(12, 12), (14, 14)], 0usize), (vec![(20, 20)], 2usize)];
    place_drawn(&room, &m, &mut objs, &monsters, &items);
    assert_eq!(objs.len(), 4);
    assert_eq!((objs[1].name.as_str(), objs[1].pos()), ("orc", (12, 12)));
    assert_eq!((objs[2].name.as_str(), objs[2].pos()), ("orc", (13, 12)));
    assert_eq!((objs[3].name.as_str(), objs[3].pos()), ("healing potion", (14, 14)));
}

#[test]
fn decimal_text_of_integers() {
    assert_eq!(int_text(0), "0");
    assert_eq!(int_text(7), "7");
    assert_eq!(int_text(35), "35");
    assert_eq!(int_text(-3), "-3");
    assert_eq!(int_text(i32::MAX), "2147483647");
    assert_eq!(int_text(i32::MIN), "-2147483648");
}

#[test]
fn select_rooms_keeps_candidates_clear_of_earlier_ones() {
    let a = Rect::new(1, 1, 6, 6);
    let overlaps_a = Rect::new(5, 5, 6, 6);
    let b = Rect::new(20, 1, 6, 6);
    let touches_b = Rect::new(26, 7, 6, 6);
    let c = Rect::new(40, 20, 8, 8);
    let kept = select_rooms(&vec![a, overlaps_a, b, touches_b, c]);
    assert_eq!(kept, vec![a, b, c]);
    assert!(select_rooms(&vec![]).is_empty());
}
