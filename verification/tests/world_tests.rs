use roguelike_core::geom::{pt, PointSet};
use roguelike_core::gfx::{Color, Renderable, CP437};
use roguelike_core::world::{Bundle, ComponentKind, Explosive, Viewshed, World, WorldError};

#[test]
fn spawn_and_components() {
    let mut w = World::new();
    let e = w.spawn(Bundle {
        position: Some(pt(3, 4)),
        name: Some("Hero".to_string()),
        player: true,
        blocks_tile: true,
        viewshed: Some(Viewshed { visible_tiles: PointSet::new(), range: 7, dirty: true }),
        renderable: Some(Renderable { spr: CP437::ChAt, color: Color::WhiteBright }),
        ..Default::default()
    });
    assert!(w.is_live(e));
    assert_eq!(w.position(e), Some(pt(3, 4)));
    assert!(w.has_player(e));
    assert!(!w.has_ai(e));
    assert!(w.blocks_tile(e));
    assert!(w.has_viewshed(e));
    assert!(w.viewshed_dirty(e));
    assert_eq!(w.viewshed_range(e), 7);
    assert_eq!(w.name_clone(e).as_deref(), Some("Hero"));
    assert!(!w.has_explosive(e));
}

#[test]
fn despawn_then_stale_id_is_dead() {
    let mut w = World::new();
    let e = w.spawn(Bundle { position: Some(pt(0, 0)), ..Default::default() });
    assert_eq!(w.despawn(e), Ok(()));
    assert!(!w.is_live(e));
    assert_eq!(w.despawn(e), Err(WorldError::UnknownEntity));
    assert_eq!(w.position(e), None);
}

#[test]
fn slot_reuse_bumps_generation() {
    let mut w = World::new();
    let a = w.spawn(Bundle { ai: true, ..Default::default() });
    let b = w.spawn(Bundle { ai: true, ..Default::default() });
    let _ = w.despawn(a);
    let c = w.spawn(Bundle { explosive: Some(Explosive { radius: 3 }), ..Default::default() });
    // the dead slot is reused under a higher generation
    assert_eq!(c.index, a.index);
    assert_ne!(c.generation, a.generation);
    assert!(!w.is_live(a));
    assert!(w.is_live(b));
    assert!(w.is_live(c));
    assert!(w.has_explosive(c));
    assert_eq!(w.slot_count(), 2);
}

#[test]
fn set_position_and_viewshed_updates() {
    let mut w = World::new();
    let e = w.spawn(Bundle {
        position: Some(pt(1, 1)),
        viewshed: Some(Viewshed { visible_tiles: PointSet::new(), range: 2, dirty: false }),
        ..Default::default()
    });
    w.set_position(e, pt(2, 1));
    assert_eq!(w.position(e), Some(pt(2, 1)));
    assert!(!w.viewshed_dirty(e));
    w.mark_viewshed_dirty(e);
    assert!(w.viewshed_dirty(e));
    let mut seen = PointSet::new();
    seen.insert(pt(2, 1));
    w.set_viewshed_tiles(e, seen);
    assert!(!w.viewshed_dirty(e));
    assert!(w.viewshed_contains(e, pt(2, 1)));
    assert!(!w.viewshed_contains(e, pt(0, 0)));
}

#[test]
fn insert_components_replaces_and_keeps() {
    let mut w = World::new();
    let e = w.spawn(Bundle { position: Some(pt(1, 1)), ..Default::default() });
    assert_eq!(
        w.insert_components(
            e,
            Bundle {
                name: Some("Hero".to_string()),
                player: true,
                position: Some(pt(2, 2)),
                ..Default::default()
            },
        ),
        Ok(())
    );
    assert_eq!(w.position(e), Some(pt(2, 2)));
    assert!(w.has_player(e));
    assert_eq!(w.name_clone(e).as_deref(), Some("Hero"));
    // inserting on a stale identifier fails without touching the store
    let dead = w.spawn(Bundle { ..Default::default() });
    let _ = w.despawn(dead);
    assert_eq!(
        w.insert_components(dead, Bundle { ai: true, ..Default::default() }),
        Err(WorldError::UnknownEntity)
    );
}

#[test]
fn remove_component_detaches_one() {
    let mut w = World::new();
    let e = w.spawn(Bundle {
        position: Some(pt(4, 4)),
        blocks_tile: true,
        explosive: Some(Explosive { radius: 1 }),
        ..Default::default()
    });
    assert_eq!(w.remove_component(e, ComponentKind::Explosive), Ok(()));
    assert!(!w.has_explosive(e));
    assert_eq!(w.position(e), Some(pt(4, 4)));
    assert!(w.blocks_tile(e));
    assert_eq!(w.remove_component(e, ComponentKind::BlocksTile), Ok(()));
    assert!(!w.blocks_tile(e));
    // removing an absent component is a harmless no-op
    assert_eq!(w.remove_component(e, ComponentKind::Name), Ok(()));
    let _ = w.despawn(e);
    assert_eq!(
        w.remove_component(e, ComponentKind::Position),
        Err(WorldError::UnknownEntity)
    );
}
