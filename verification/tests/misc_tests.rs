use roguelike_core::game::{GameMap, Tile};
use roguelike_core::geom::pt;
use roguelike_core::gfx::CP437;
use roguelike_core::mapgen::{carve_h_corridor, carve_room, carve_v_corridor, Rect};
use roguelike_core::scene::{SceneStack, Transition};

#[test]
fn scene_stack_push_pop_switch() {
    let mut stack: SceneStack<&str> = SceneStack::new("game");
    stack.push("menu");
    assert_eq!(stack.scenes.len(), 2);
    let top = stack.pop();
    assert_eq!(top, "menu");
    assert!(stack.switch(Transition::Stay).is_none());
    assert!(stack.switch(Transition::Push("viewer")).is_none());
    assert_eq!(stack.scenes.len(), 2);
    assert_eq!(stack.switch(Transition::Replace("pause")), Some("viewer"));
    assert_eq!(stack.scenes.len(), 2);
    assert_eq!(stack.switch(Transition::Pop), Some("pause"));
    assert_eq!(stack.scenes.len(), 1);
}

#[test]
fn carve_room_floors_the_rectangle() {
    let mut m = GameMap::new(8, 8);
    carve_room(&mut m, &Rect { min: pt(2, 3), max: pt(5, 6) });
    for y in 0..8 {
        for x in 0..8 {
            let want = if (2..5).contains(&x) && (3..6).contains(&y) {
                Tile::Floor
            } else {
                Tile::Wall
            };
            assert_eq!(*m.tiles.get(x, y), want, "tile ({}, {})", x, y);
        }
    }
}

#[test]
fn carve_corridors_span_inclusive_in_either_order() {
    let mut m = GameMap::new(10, 10);
    carve_h_corridor(&mut m, 7, 2, 4);
    for x in 2..=7 {
        assert_eq!(*m.tiles.get(x, 4), Tile::Floor);
    }
    assert_eq!(*m.tiles.get(1, 4), Tile::Wall);
    assert_eq!(*m.tiles.get(8, 4), Tile::Wall);
    carve_v_corridor(&mut m, 6, 8, 3);
    for y in 3..=8 {
        assert_eq!(*m.tiles.get(6, y), Tile::Floor);
    }
    assert_eq!(*m.tiles.get(6, 2), Tile::Wall);
    assert_eq!(*m.tiles.get(6, 9), Tile::Wall);
}

#[test]
fn rect_intersection_and_center() {
    let a = Rect { min: pt(1, 1), max: pt(4, 4) };
    let b = Rect { min: pt(3, 3), max: pt(6, 6) };
    let c = Rect { min: pt(4, 1), max: pt(6, 3) };
    assert!(a.intersects(&b));
    assert!(!a.intersects(&c));
    let grown = a.inflate(1, 1);
    assert!(grown.intersects(&c));
    assert_eq!(a.center(), pt(2, 2));
    assert_eq!(b.center(), pt(4, 4));
}

#[test]
fn tile_flags() {
    assert!(Tile::Wall.blocked());
    assert!(Tile::Wall.opaque());
    assert!(!Tile::Floor.blocked());
    assert!(!Tile::Floor.opaque());
    assert!(!Tile::StairUp.blocked());
    assert!(!Tile::StairUp.opaque());
}

#[test]
fn sheet_indices_match_cp437() {
    assert_eq!(CP437::Pillar.sheet_index(), 35);
    assert_eq!(CP437::ChDot.sheet_index(), 46);
    assert_eq!(CP437::LessThan.sheet_index(), 60);
    assert_eq!(CP437::ChAt.sheet_index(), 64);
    assert_eq!(CP437::Cha.sheet_index(), 97);
    assert_eq!(CP437::Filled3.sheet_index(), 178);
    assert_eq!(CP437::Filled4.sheet_index(), 219);
}
