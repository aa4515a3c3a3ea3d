use roguelike_core::game::{Event, Game, GameMap, GameState, Key, KeyState};
use roguelike_core::geom::{pt, Point, PointSet};
use roguelike_core::gfx::{Color, Renderable, CP437};
use roguelike_core::mapgen::{carve_room, Rect};
use roguelike_core::world::{Bundle, Entity, Explosive, Viewshed, World};

/// A `w` x `h` map whose border is wall and whose interior is floor.
fn open_map(w: i32, h: i32) -> GameMap {
    let mut m = GameMap::new(w, h);
    carve_room(
        &mut m,
        &Rect { min: pt(1, 1), max: pt(w - 1, h - 1) },
    );
    m
}

fn hero_bundle(p: Point) -> Bundle {
    Bundle {
        position: Some(p),
        name: Some("Hero".to_string()),
        player: true,
        blocks_tile: true,
        viewshed: Some(Viewshed { visible_tiles: PointSet::new(), range: 7, dirty: true }),
        renderable: Some(Renderable { spr: CP437::ChAt, color: Color::WhiteBright }),
        ..Default::default()
    }
}

fn ant_bundle(p: Point) -> Bundle {
    Bundle {
        position: Some(p),
        name: Some("Giant Ant".to_string()),
        ai: true,
        blocks_tile: true,
        renderable: Some(Renderable { spr: CP437::Cha, color: Color::BlueBright }),
        ..Default::default()
    }
}

fn flask_bundle(p: Point) -> Bundle {
    Bundle {
        position: Some(p),
        name: Some("Exploding Flask".to_string()),
        explosive: Some(Explosive { radius: 3 }),
        renderable: Some(Renderable { spr: CP437::Trap, color: Color::YellowBright }),
        ..Default::default()
    }
}

fn live_explosions(w: &World) -> Vec<Entity> {
    let mut out = Vec::new();
    for i in 0..w.slot_count() {
        if let Some(e) = w.entity_at(i) {
            if w.explosion_duration(e).is_some() {
                out.push(e);
            }
        }
    }
    out
}

/// A move into a wall cell never changes the position and still emits the
/// Collision events for the occupants of that cell, blocking or not.
#[test]
fn move_into_wall_is_rejected_but_collides() {
    let mut world = World::new();
    let hero = world.spawn(hero_bundle(pt(3, 1)));
    // a non-blocking occupant standing in the wall cell above the hero
    let ghost = world.spawn(Bundle {
        position: Some(pt(3, 0)),
        name: Some("Ghost".to_string()),
        ..Default::default()
    });
    let mut state = GameState::new(world, hero, open_map(7, 7));
    let game = Game::new(&mut state);
    let observer = state.chan.register_reader();
    state.input = KeyState { key: Some(Key::Up), repeat: false };
    let acted = game.update(&mut state);
    assert!(acted);
    assert_eq!(state.world.position(hero), Some(pt(3, 1)));
    let events = state.chan.read(&observer);
    assert!(events.contains(&Event::Collision(hero, ghost)));
    assert!(state.world.is_live(ghost));
}

/// A move onto a free floor cell moves the entity and refreshes its
/// viewshed.
#[test]
fn move_onto_floor_succeeds() {
    let mut world = World::new();
    let hero = world.spawn(hero_bundle(pt(3, 3)));
    let mut state = GameState::new(world, hero, open_map(9, 9));
    let game = Game::new(&mut state);
    state.input = KeyState { key: Some(Key::Right), repeat: false };
    game.update(&mut state);
    assert_eq!(state.world.position(hero), Some(pt(4, 3)));
    assert!(!state.world.viewshed_dirty(hero));
    assert!(state.world.viewshed_contains(hero, pt(4, 3)));
}

/// Bumping into an AI entity rejects the move and kills the AI entity the
/// same turn: the TakeDamage target no longer exists after the Damage
/// stage.
#[test]
fn bump_attack_kills_ant() {
    let mut world = World::new();
    let hero = world.spawn(hero_bundle(pt(3, 3)));
    let ant = world.spawn(ant_bundle(pt(4, 3)));
    let mut state = GameState::new(world, hero, open_map(9, 9));
    let game = Game::new(&mut state);
    state.input = KeyState { key: Some(Key::Right), repeat: false };
    game.update(&mut state);
    assert_eq!(state.world.position(hero), Some(pt(3, 3)));
    assert!(!state.world.is_live(ant));
    assert!(state.world.is_live(hero));
}

/// Detonating an explosive spawns exactly 5 explosion effects and
/// despawns the explosive exactly once, even when two entities collide
/// with it in the same turn; every other occupant of a blast cell dies.
#[test]
fn detonation_spawns_five_and_despawns_once() {
    let mut world = World::new();
    let hero = world.spawn(hero_bundle(pt(3, 3)));
    let flask = world.spawn(flask_bundle(pt(4, 3)));
    let ant = world.spawn(ant_bundle(pt(5, 3)));
    let mut state = GameState::new(world, hero, open_map(9, 9));
    let game = Game::new(&mut state);
    state.input = KeyState { key: Some(Key::Right), repeat: false };
    game.update(&mut state);
    // hero walked onto the flask cell, the ant stepped toward it too:
    // two collisions against the same explosive in one turn
    assert!(!state.world.is_live(flask));
    let explosions = live_explosions(&state.world);
    assert_eq!(explosions.len(), 5);
    let mut cells: Vec<Point> = Vec::new();
    for e in &explosions {
        assert_eq!(state.world.explosion_duration(*e), Some(6));
        cells.push(state.world.position(*e).unwrap());
    }
    for c in [pt(4, 3), pt(5, 3), pt(3, 3), pt(4, 2), pt(4, 4)] {
        assert!(cells.contains(&c), "missing explosion at {:?}", c);
    }
    // the hero and the ant stood on blast cells (per the turn-start index)
    assert!(!state.world.is_live(hero));
    assert!(!state.world.is_live(ant));
}

/// The explosion tick decrements durations on its own cadence and
/// despawns the effect at zero.
#[test]
fn explosion_tick_counts_down_and_despawns() {
    let mut world = World::new();
    let hero = world.spawn(hero_bundle(pt(3, 3)));
    let flask = world.spawn(flask_bundle(pt(4, 3)));
    let mut state = GameState::new(world, hero, open_map(9, 9));
    let game = Game::new(&mut state);
    state.input = KeyState { key: Some(Key::Right), repeat: false };
    game.update(&mut state);
    assert!(!state.world.is_live(flask));
    assert_eq!(live_explosions(&state.world).len(), 5);
    for tick in 1..=5u8 {
        roguelike_core::game::explosion_handler(&mut state.world);
        let explosions = live_explosions(&state.world);
        assert_eq!(explosions.len(), 5);
        for e in &explosions {
            assert_eq!(state.world.explosion_duration(*e), Some(6 - tick));
        }
    }
    // last glyph stage is the faint one in bright yellow
    for e in &live_explosions(&state.world) {
        let r = state.world.renderable(*e).unwrap();
        assert_eq!(r.spr, CP437::Filled1);
        assert_eq!(r.color, Color::YellowBright);
    }
    roguelike_core::game::explosion_handler(&mut state.world);
    assert_eq!(live_explosions(&state.world).len(), 0);
}

/// Explored cells never revert, whatever the viewshed does afterwards.
#[test]
fn explored_is_monotonic() {
    let mut world = World::new();
    let hero = world.spawn(Bundle {
        viewshed: Some(Viewshed { visible_tiles: PointSet::new(), range: 2, dirty: true }),
        ..hero_bundle(pt(2, 2))
    });
    let mut state = GameState::new(world, hero, open_map(12, 7));
    let game = Game::new(&mut state);
    state.input = KeyState { key: Some(Key::Period), repeat: false };
    game.update(&mut state);
    assert!(*state.map.explored.at(pt(2, 2)));
    assert!(*state.map.explored.at(pt(1, 2)));
    let explored_before: Vec<(i32, i32)> = {
        let mut v = Vec::new();
        for y in 0..7 {
            for x in 0..12 {
                if *state.map.explored.at(pt(x, y)) {
                    v.push((x, y));
                }
            }
        }
        v
    };
    // walk away; everything once explored stays explored
    for _ in 0..5 {
        state.input = KeyState { key: Some(Key::Right), repeat: false };
        game.update(&mut state);
    }
    assert_eq!(state.world.position(hero), Some(pt(7, 2)));
    for (x, y) in explored_before {
        assert!(*state.map.explored.at(pt(x, y)), "cell ({}, {}) reverted", x, y);
    }
}

/// AI entities act only on turns where the player acted.
#[test]
fn ai_only_acts_when_player_does() {
    let mut world = World::new();
    let hero = world.spawn(hero_bundle(pt(2, 2)));
    let ant = world.spawn(ant_bundle(pt(6, 4)));
    let mut state = GameState::new(world, hero, open_map(9, 9));
    let game = Game::new(&mut state);
    state.input = KeyState { key: None, repeat: false };
    let acted = game.update(&mut state);
    assert!(!acted);
    assert_eq!(state.world.position(ant), Some(pt(6, 4)));
    state.input = KeyState { key: Some(Key::Escape), repeat: false };
    assert!(!game.update(&mut state));
    assert_eq!(state.world.position(ant), Some(pt(6, 4)));
    // resting is acting: the ant steps toward decreasing x
    state.input = KeyState { key: Some(Key::Period), repeat: false };
    assert!(game.update(&mut state));
    assert_eq!(state.world.position(ant), Some(pt(5, 4)));
}

/// The per-turn map index records occupants and the merged blocking mask.
#[test]
fn map_index_reflects_entities() {
    let mut world = World::new();
    let hero = world.spawn(hero_bundle(pt(2, 2)));
    let _ghost = world.spawn(Bundle {
        position: Some(pt(3, 2)),
        ..Default::default()
    });
    let mut state = GameState::new(world, hero, open_map(6, 6));
    let game = Game::new(&mut state);
    state.input = KeyState { key: None, repeat: false };
    game.update(&mut state);
    // blocking entity sets the mask, non-blocking occupant does not
    assert!(*state.map.blocked.at(pt(2, 2)));
    assert!(!*state.map.blocked.at(pt(3, 2)));
    assert!(*state.map.blocked.at(pt(0, 0)));
    assert_eq!(state.map.entities.at(pt(2, 2)).len(), 1);
    assert_eq!(state.map.entities.at(pt(3, 2)).len(), 1);
    assert_eq!(state.map.entities.at(pt(4, 4)).len(), 0);
}
