//! The entity store: a generational arena of component bundles.
//!
//! Entities are opaque identifiers made of a slot index and a generation.
//! Despawning marks the slot dead; a later spawn may reuse the slot under a
//! higher generation, so stale identifiers never alias a live entity.
//! Components are a closed set: position, name, the player / AI /
//! blocks-tile markers, viewshed, explosive charge, explosion effect, and
//! renderable appearance.

use vstd::prelude::*;

use crate::geom::{Point, PointSet};
use crate::gfx::{CP437, Color, Renderable};

verus! {

/// An opaque, reusable entity identifier: slot index plus generation.
#[derive(Clone, Copy, PartialEq, Eq, Structural, Hash, Debug)]
pub struct Entity {
    pub index: usize,
    pub generation: u32,
}

/// Failures of entity-store operations.
#[derive(Clone, Copy, PartialEq, Eq, Structural, Debug)]
pub enum WorldError {
    /// The operation referenced a despawned or never-spawned entity.
    UnknownEntity,
}

/// Field-of-view state of an entity: the cells it sees, its sight range,
/// and whether the cached set must be recomputed.
pub struct Viewshed {
    pub visible_tiles: PointSet,
    pub range: i32,
    pub dirty: bool,
}

/// Logical value of a [`Viewshed`].
#[verifier::ext_equal]
pub ghost struct ViewshedModel {
    pub visible_tiles: Set<Point>,
    pub range: i32,
    pub dirty: bool,
}

impl View for Viewshed {
    type V = ViewshedModel;

    open spec fn view(&self) -> ViewshedModel {
        ViewshedModel { visible_tiles: self.visible_tiles@, range: self.range, dirty: self.dirty }
    }
}

/// An entity that detonates on collision.
#[derive(Clone, Copy, PartialEq, Eq, Structural, Debug)]
pub struct Explosive {
    pub radius: u8,
}

/// A timed explosion effect, despawned when its duration runs out.
#[derive(Clone, Copy, PartialEq, Eq, Structural, Debug)]
pub struct Explosion {
    pub duration_left: u8,
}

/// One slot of the arena.
struct Slot {
    generation: u32,
    alive: bool,
    position: Option<Point>,
    name: Option<String>,
    player: bool,
    ai: bool,
    blocks_tile: bool,
    viewshed: Option<Viewshed>,
    explosive: Option<Explosive>,
    explosion: Option<Explosion>,
    renderable: Option<Renderable>,
}

/// Logical value of one slot of the store.
#[verifier::ext_equal]
pub ghost struct SlotModel {
    pub generation: u32,
    pub alive: bool,
    pub position: Option<Point>,
    pub name: Option<Seq<char>>,
    pub player: bool,
    pub ai: bool,
    pub blocks_tile: bool,
    pub viewshed: Option<ViewshedModel>,
    pub explosive: Option<Explosive>,
    pub explosion: Option<Explosion>,
    pub renderable: Option<Renderable>,
}

spec fn slot_model(s: Slot) -> SlotModel {
    SlotModel {
        generation: s.generation,
        alive: s.alive,
        position: s.position,
        name: match s.name {
            Some(n) => Some(n@),
            None => None,
        },
        player: s.player,
        ai: s.ai,
        blocks_tile: s.blocks_tile,
        viewshed: match s.viewshed {
            Some(v) => Some(v@),
            None => None,
        },
        explosive: s.explosive,
        explosion: s.explosion,
        renderable: s.renderable,
    }
}

/// A bundle of components to attach to a freshly spawned entity.
pub struct Bundle {
    pub position: Option<Point>,
    pub name: Option<String>,
    pub player: bool,
    pub ai: bool,
    pub blocks_tile: bool,
    pub viewshed: Option<Viewshed>,
    pub explosive: Option<Explosive>,
    pub explosion: Option<Explosion>,
    pub renderable: Option<Renderable>,
}

impl Default for Bundle {
    /// The empty bundle: no components at all.
    fn default() -> (b: Bundle)
        ensures
            b.position is None,
            b.name is None,
            !b.player,
            !b.ai,
            !b.blocks_tile,
            b.viewshed is None,
            b.explosive is None,
            b.explosion is None,
            b.renderable is None,
    {
        Bundle {
            position: None,
            name: None,
            player: false,
            ai: false,
            blocks_tile: false,
            viewshed: None,
            explosive: None,
            explosion: None,
            renderable: None,
        }
    }
}

/// The slot a bundle turns into when spawned under `generation`.
pub open spec fn bundle_model(b: Bundle, generation: u32) -> SlotModel {
    SlotModel {
        generation,
        alive: true,
        position: b.position,
        name: match b.name {
            Some(n) => Some(n@),
            None => None,
        },
        player: b.player,
        ai: b.ai,
        blocks_tile: b.blocks_tile,
        viewshed: match b.viewshed {
            Some(v) => Some(v@),
            None => None,
        },
        explosive: b.explosive,
        explosion: b.explosion,
        renderable: b.renderable,
    }
}

/// The component slots of the store, as a closed set.
#[derive(Clone, Copy, PartialEq, Eq, Structural, Debug)]
pub enum ComponentKind {
    Position,
    Name,
    Player,
    Ai,
    BlocksTile,
    Viewshed,
    Explosive,
    Explosion,
    Renderable,
}

/// The slot that attaching a bundle to an existing slot produces: present
/// components replace, set markers set, everything else is kept.
pub open spec fn merged_model(s: SlotModel, b: Bundle) -> SlotModel {
    SlotModel {
        position: if b.position is Some {
            b.position
        } else {
            s.position
        },
        name: match b.name {
            Some(n) => Some(n@),
            None => s.name,
        },
        player: s.player || b.player,
        ai: s.ai || b.ai,
        blocks_tile: s.blocks_tile || b.blocks_tile,
        viewshed: match b.viewshed {
            Some(v) => Some(v@),
            None => s.viewshed,
        },
        explosive: if b.explosive is Some {
            b.explosive
        } else {
            s.explosive
        },
        explosion: if b.explosion is Some {
            b.explosion
        } else {
            s.explosion
        },
        renderable: if b.renderable is Some {
            b.renderable
        } else {
            s.renderable
        },
        ..s
    }
}

/// The slot that detaching one component leaves behind.
pub open spec fn removed_model(s: SlotModel, c: ComponentKind) -> SlotModel {
    match c {
        ComponentKind::Position => SlotModel { position: None, ..s },
        ComponentKind::Name => SlotModel { name: None, ..s },
        ComponentKind::Player => SlotModel { player: false, ..s },
        ComponentKind::Ai => SlotModel { ai: false, ..s },
        ComponentKind::BlocksTile => SlotModel { blocks_tile: false, ..s },
        ComponentKind::Viewshed => SlotModel { viewshed: None, ..s },
        ComponentKind::Explosive => SlotModel { explosive: None, ..s },
        ComponentKind::Explosion => SlotModel { explosion: None, ..s },
        ComponentKind::Renderable => SlotModel { renderable: None, ..s },
    }
}

/// Whether `e` denotes a live entity of the store `w`: its slot exists, is
/// alive, and carries `e`'s generation.
pub open spec fn live_in(w: Seq<SlotModel>, e: Entity) -> bool {
    &&& (e.index as int) < w.len()
    &&& w[e.index as int].alive
    &&& w[e.index as int].generation == e.generation
}

/// The first reusable slot at or after `i`: dead, with room to bump the
/// generation. `w.len()` when there is none.
pub open spec fn first_free_from(w: Seq<SlotModel>, i: int) -> int
    decreases w.len() - i,
{
    if i < 0 || i >= w.len() {
        w.len() as int
    } else if !w[i].alive && w[i].generation < u32::MAX {
        i
    } else {
        first_free_from(w, i + 1)
    }
}

/// The store and entity that a spawn produces: the first reusable slot is
/// refilled under a bumped generation, or a fresh slot is appended.
pub open spec fn spawn_result(w: Seq<SlotModel>, b: Bundle) -> (Seq<SlotModel>, Entity) {
    let i = first_free_from(w, 0);
    if i < w.len() {
        let gen = (w[i].generation + 1) as u32;
        (w.update(i, bundle_model(b, gen)), Entity { index: i as usize, generation: gen })
    } else {
        (w.push(bundle_model(b, 0)), Entity { index: w.len() as usize, generation: 0 })
    }
}

/// The generational arena of entities.
pub struct World {
    slots: Vec<Slot>,
}

impl View for World {
    type V = Seq<SlotModel>;

    closed spec fn view(&self) -> Seq<SlotModel> {
        self.slots@.map_values(|s: Slot| slot_model(s))
    }
}

impl World {
    /// An empty store.
    pub fn new() -> (w: World)
        ensures
            w@ == Seq::<SlotModel>::empty(),
    {
        let w = World { slots: Vec::new() };
        proof {
            assert(w@ =~= Seq::<SlotModel>::empty());
        }
        w
    }

    /// The number of slots (live or dead) of the store.
    pub fn slot_count(&self) -> (n: usize)
        ensures
            n == self@.len(),
    {
        self.slots.len()
    }

    fn make_slot(bundle: Bundle, generation: u32) -> (s: Slot)
        ensures
            slot_model(s) == bundle_model(bundle, generation),
    {
        let Bundle { position, name, player, ai, blocks_tile, viewshed, explosive, explosion, renderable } =
            bundle;
        Slot {
            generation,
            alive: true,
            position,
            name,
            player,
            ai,
            blocks_tile,
            viewshed,
            explosive,
            explosion,
            renderable,
        }
    }

    /// Spawns a new entity carrying the bundle's components, reusing the
    /// first dead slot (under a strictly higher generation) if any, and
    /// appending a fresh slot otherwise. No previously live entity is
    /// affected, and the new identifier never aliases an old one.
    pub fn spawn(&mut self, bundle: Bundle) -> (e: Entity)
        ensures
            final(self)@ == spawn_result(old(self)@, bundle).0,
            e == spawn_result(old(self)@, bundle).1,
            live_in(final(self)@, e),
            !live_in(old(self)@, e),
            final(self)@[e.index as int] == bundle_model(bundle, e.generation),
            forall|o: Entity|
                live_in(old(self)@, o) ==> live_in(final(self)@, o) && final(self)@[o.index as int]
                    == old(self)@[o.index as int],
    {
        let n = self.slots.len();
        let mut i: usize = 0;
        while i < n
            invariant
                self == old(self),
                i <= n,
                n == self@.len(),
                first_free_from(self@, 0) == first_free_from(self@, i as int),
            decreases n - i,
        {
            let free = !self.slots[i].alive && self.slots[i].generation < u32::MAX;
            proof {
                assert(self@[i as int] == slot_model(self.slots@[i as int]));
            }
            if free {
                let gen = self.slots[i].generation + 1;
                let mut s = Self::make_slot(bundle, gen);
                self.slots.set_and_swap(i, &mut s);
                proof {
                    assert(first_free_from(old(self)@, 0) == i);
                    assert(self@ =~= old(self)@.update(
                        i as int,
                        bundle_model(bundle, gen),
                    ));
                }
                return Entity { index: i, generation: gen };
            }
            i += 1;
        }
        let s = Self::make_slot(bundle, 0);
        self.slots.push(s);
        proof {
            assert(first_free_from(old(self)@, 0) == n);
            assert(self@ =~= old(self)@.push(bundle_model(bundle, 0)));
        }
        Entity { index: n, generation: 0 }
    }

    /// Despawns a live entity, leaving its slot dead; on a stale or unknown
    /// identifier the store is unchanged and `UnknownEntity` is returned.
    pub fn despawn(&mut self, e: Entity) -> (r: Result<(), WorldError>)
        ensures
            live_in(old(self)@, e) ==> r is Ok && final(self)@ == old(self)@.update(
                e.index as int,
                SlotModel { alive: false, ..old(self)@[e.index as int] },
            ),
            !live_in(old(self)@, e) ==> r == Result::<(), WorldError>::Err(
                WorldError::UnknownEntity,
            ) && final(self)@ == old(self)@,
            !live_in(final(self)@, e),
            forall|o: Entity|
                live_in(old(self)@, o) && o != e ==> live_in(final(self)@, o)
                    && final(self)@[o.index as int] == old(self)@[o.index as int],
    {
        if self.is_live(e) {
            let i = e.index as usize;
            let mut s = Self::make_slot(Bundle::default(), 0);
            self.slots.set_and_swap(i, &mut s);
            s.alive = false;
            self.slots.set_and_swap(i, &mut s);
            proof {
                assert(self@ =~= old(self)@.update(
                    e.index as int,
                    SlotModel { alive: false, ..old(self)@[e.index as int] },
                ));
                assert forall|o: Entity| live_in(old(self)@, o) && o != e implies live_in(self@, o)
                    && self@[o.index as int] == old(self)@[o.index as int] by {}
            }
            Ok(())
        } else {
            Err(WorldError::UnknownEntity)
        }
    }

    /// Whether the identifier denotes a live entity.
    pub fn is_live(&self, e: Entity) -> (b: bool)
        ensures
            b == live_in(self@, e),
    {
        let i = e.index as usize;
        if i < self.slots.len() {
            proof {
                assert(self@[i as int] == slot_model(self.slots@[i as int]));
            }
            self.slots[i].alive && self.slots[i].generation == e.generation
        } else {
            false
        }
    }

    /// The live entity stored in slot `i`, if that slot is alive.
    pub fn entity_at(&self, i: usize) -> (r: Option<Entity>)
        requires
            i < self@.len(),
        ensures
            match r {
                Some(e) => self@[i as int].alive && e == (Entity {
                    index: i,
                    generation: self@[i as int].generation,
                }) && live_in(self@, e),
                None => !self@[i as int].alive,
            },
    {
        proof {
            assert(self@[i as int] == slot_model(self.slots@[i as int]));
        }
        if self.slots[i].alive {
            Some(Entity { index: i, generation: self.slots[i].generation })
        } else {
            None
        }
    }

    /// The position of a live entity, if it has one.
    pub fn position(&self, e: Entity) -> (r: Option<Point>)
        ensures
            r == if live_in(self@, e) {
                self@[e.index as int].position
            } else {
                None::<Point>
            },
    {
        if self.is_live(e) {
            proof {
                assert(self@[e.index as int] == slot_model(self.slots@[e.index as int]));
            }
            self.slots[e.index].position
        } else {
            None
        }
    }

    /// Moves a live entity to `p`; every other component and entity is
    /// unchanged.
    pub fn set_position(&mut self, e: Entity, p: Point)
        requires
            live_in(old(self)@, e),
        ensures
            final(self)@ == old(self)@.update(
                e.index as int,
                SlotModel { position: Some(p), ..old(self)@[e.index as int] },
            ),
    {
        let i = e.index;
        let mut s = Self::make_slot(Bundle::default(), 0);
        self.slots.set_and_swap(i, &mut s);
        s.position = Some(p);
        self.slots.set_and_swap(i, &mut s);
        proof {
            assert(self@ =~= old(self)@.update(
                e.index as int,
                SlotModel { position: Some(p), ..old(self)@[e.index as int] },
            ));
        }
    }

    /// Whether the entity is live and carries the player marker.
    pub fn has_player(&self, e: Entity) -> (b: bool)
        ensures
            b == (live_in(self@, e) && self@[e.index as int].player),
    {
        if self.is_live(e) {
            proof {
                assert(self@[e.index as int] == slot_model(self.slots@[e.index as int]));
            }
            self.slots[e.index].player
        } else {
            false
        }
    }

    /// Whether the entity is live and carries the AI marker.
    pub fn has_ai(&self, e: Entity) -> (b: bool)
        ensures
            b == (live_in(self@, e) && self@[e.index as int].ai),
    {
        if self.is_live(e) {
            proof {
                assert(self@[e.index as int] == slot_model(self.slots@[e.index as int]));
            }
            self.slots[e.index].ai
        } else {
            false
        }
    }

    /// Whether the entity is live and carries the blocks-tile marker.
    pub fn blocks_tile(&self, e: Entity) -> (b: bool)
        ensures
            b == (live_in(self@, e) && self@[e.index as int].blocks_tile),
    {
        if self.is_live(e) {
            proof {
                assert(self@[e.index as int] == slot_model(self.slots@[e.index as int]));
            }
            self.slots[e.index].blocks_tile
        } else {
            false
        }
    }

    /// Whether the entity is live and has a viewshed.
    pub fn has_viewshed(&self, e: Entity) -> (b: bool)
        ensures
            b == (live_in(self@, e) && self@[e.index as int].viewshed is Some),
    {
        if self.is_live(e) {
            proof {
                assert(self@[e.index as int] == slot_model(self.slots@[e.index as int]));
            }
            self.slots[e.index].viewshed.is_some()
        } else {
            false
        }
    }

    /// Whether the entity is live with a viewshed scheduled for
    /// recomputation.
    pub fn viewshed_dirty(&self, e: Entity) -> (b: bool)
        ensures
            b == (live_in(self@, e) && match self@[e.index as int].viewshed {
                Some(v) => v.dirty,
                None => false,
            }),
    {
        if self.is_live(e) {
            proof {
                assert(self@[e.index as int] == slot_model(self.slots@[e.index as int]));
            }
            match &self.slots[e.index].viewshed {
                Some(v) => v.dirty,
                None => false,
            }
        } else {
            false
        }
    }

    /// The sight range of a live entity's viewshed.
    pub fn viewshed_range(&self, e: Entity) -> (r: i32)
        requires
            live_in(self@, e),
            self@[e.index as int].viewshed is Some,
        ensures
            r == self@[e.index as int].viewshed->Some_0.range,
    {
        proof {
            assert(self@[e.index as int] == slot_model(self.slots@[e.index as int]));
        }
        match &self.slots[e.index].viewshed {
            Some(v) => v.range,
            None => 0,
        }
    }

    /// Whether the entity is live and its viewshed contains `p`.
    pub fn viewshed_contains(&self, e: Entity, p: Point) -> (b: bool)
        ensures
            b == (live_in(self@, e) && match self@[e.index as int].viewshed {
                Some(v) => v.visible_tiles.contains(p),
                None => false,
            }),
    {
        if self.is_live(e) {
            proof {
                assert(self@[e.index as int] == slot_model(self.slots@[e.index as int]));
            }
            match &self.slots[e.index].viewshed {
                Some(v) => v.visible_tiles.contains(p),
                None => false,
            }
        } else {
            false
        }
    }

    /// Schedules a live entity's viewshed for recomputation; an entity
    /// without a viewshed is left unchanged.
    pub fn mark_viewshed_dirty(&mut self, e: Entity)
        requires
            live_in(old(self)@, e),
        ensures
            final(self)@ == match old(self)@[e.index as int].viewshed {
                Some(v) => old(self)@.update(
                    e.index as int,
                    SlotModel {
                        viewshed: Some(ViewshedModel { dirty: true, ..v }),
                        ..old(self)@[e.index as int]
                    },
                ),
                None => old(self)@,
            },
    {
        let i = e.index;
        let mut s = Self::make_slot(Bundle::default(), 0);
        self.slots.set_and_swap(i, &mut s);
        match &mut s.viewshed {
            Some(v) => {
                v.dirty = true;
            },
            None => {},
        }
        self.slots.set_and_swap(i, &mut s);
        proof {
            match old(self)@[e.index as int].viewshed {
                Some(v) => {
                    assert(self@ =~= old(self)@.update(
                        e.index as int,
                        SlotModel {
                            viewshed: Some(ViewshedModel { dirty: true, ..v }),
                            ..old(self)@[e.index as int]
                        },
                    ));
                },
                None => {
                    assert(self@ =~= old(self)@);
                },
            }
        }
    }

    /// Replaces the computed visible set of a live entity's viewshed and
    /// clears its dirty flag; the range is kept.
    pub fn set_viewshed_tiles(&mut self, e: Entity, tiles: PointSet)
        requires
            live_in(old(self)@, e),
            old(self)@[e.index as int].viewshed is Some,
        ensures
            final(self)@ == old(self)@.update(
                e.index as int,
                SlotModel {
                    viewshed: Some(
                        ViewshedModel {
                            visible_tiles: tiles@,
                            range: old(self)@[e.index as int].viewshed->Some_0.range,
                            dirty: false,
                        },
                    ),
                    ..old(self)@[e.index as int]
                },
            ),
    {
        let i = e.index;
        let mut s = Self::make_slot(Bundle::default(), 0);
        self.slots.set_and_swap(i, &mut s);
        match &mut s.viewshed {
            Some(v) => {
                v.visible_tiles = tiles;
                v.dirty = false;
            },
            None => {},
        }
        self.slots.set_and_swap(i, &mut s);
        proof {
            assert(self@ =~= old(self)@.update(
                e.index as int,
                SlotModel {
                    viewshed: Some(
                        ViewshedModel {
                            visible_tiles: tiles@,
                            range: old(self)@[e.index as int].viewshed->Some_0.range,
                            dirty: false,
                        },
                    ),
                    ..old(self)@[e.index as int]
                },
            ));
        }
    }

    /// Whether the entity is live and carries an explosive charge.
    pub fn has_explosive(&self, e: Entity) -> (b: bool)
        ensures
            b == (live_in(self@, e) && self@[e.index as int].explosive is Some),
    {
        if self.is_live(e) {
            proof {
                assert(self@[e.index as int] == slot_model(self.slots@[e.index as int]));
            }
            self.slots[e.index].explosive.is_some()
        } else {
            false
        }
    }

    /// The remaining duration of a live entity's explosion effect, if any.
    pub fn explosion_duration(&self, e: Entity) -> (r: Option<u8>)
        ensures
            r == if live_in(self@, e) {
                match self@[e.index as int].explosion {
                    Some(x) => Some(x.duration_left),
                    None => None::<u8>,
                }
            } else {
                None::<u8>
            },
    {
        if self.is_live(e) {
            proof {
                assert(self@[e.index as int] == slot_model(self.slots@[e.index as int]));
            }
            match &self.slots[e.index].explosion {
                Some(x) => Some(x.duration_left),
                None => None,
            }
        } else {
            None
        }
    }

    /// Sets the remaining duration of a live entity's explosion effect.
    pub fn set_explosion_duration(&mut self, e: Entity, d: u8)
        requires
            live_in(old(self)@, e),
            old(self)@[e.index as int].explosion is Some,
        ensures
            final(self)@ == old(self)@.update(
                e.index as int,
                SlotModel {
                    explosion: Some(Explosion { duration_left: d }),
                    ..old(self)@[e.index as int]
                },
            ),
    {
        let i = e.index;
        let mut s = Self::make_slot(Bundle::default(), 0);
        self.slots.set_and_swap(i, &mut s);
        s.explosion = Some(Explosion { duration_left: d });
        self.slots.set_and_swap(i, &mut s);
        proof {
            assert(self@ =~= old(self)@.update(
                e.index as int,
                SlotModel {
                    explosion: Some(Explosion { duration_left: d }),
                    ..old(self)@[e.index as int]
                },
            ));
        }
    }

    /// The appearance of a live entity, if it has one.
    pub fn renderable(&self, e: Entity) -> (r: Option<Renderable>)
        ensures
            r == if live_in(self@, e) {
                self@[e.index as int].renderable
            } else {
                None::<Renderable>
            },
    {
        if self.is_live(e) {
            proof {
                assert(self@[e.index as int] == slot_model(self.slots@[e.index as int]));
            }
            self.slots[e.index].renderable
        } else {
            None
        }
    }

    /// Replaces the glyph of a live entity's appearance.
    pub fn set_sprite(&mut self, e: Entity, spr: CP437)
        requires
            live_in(old(self)@, e),
            old(self)@[e.index as int].renderable is Some,
        ensures
            final(self)@ == old(self)@.update(
                e.index as int,
                SlotModel {
                    renderable: Some(
                        Renderable {
                            spr,
                            color: old(self)@[e.index as int].renderable->Some_0.color,
                        },
                    ),
                    ..old(self)@[e.index as int]
                },
            ),
    {
        let i = e.index;
        let mut s = Self::make_slot(Bundle::default(), 0);
        self.slots.set_and_swap(i, &mut s);
        match &mut s.renderable {
            Some(r) => {
                r.spr = spr;
            },
            None => {},
        }
        self.slots.set_and_swap(i, &mut s);
        proof {
            assert(self@ =~= old(self)@.update(
                e.index as int,
                SlotModel {
                    renderable: Some(
                        Renderable {
                            spr,
                            color: old(self)@[e.index as int].renderable->Some_0.color,
                        },
                    ),
                    ..old(self)@[e.index as int]
                },
            ));
        }
    }

    /// Replaces the color of a live entity's appearance.
    pub fn set_color(&mut self, e: Entity, color: Color)
        requires
            live_in(old(self)@, e),
            old(self)@[e.index as int].renderable is Some,
        ensures
            final(self)@ == old(self)@.update(
                e.index as int,
                SlotModel {
                    renderable: Some(
                        Renderable {
                            spr: old(self)@[e.index as int].renderable->Some_0.spr,
                            color,
                        },
                    ),
                    ..old(self)@[e.index as int]
                },
            ),
    {
        let i = e.index;
        let mut s = Self::make_slot(Bundle::default(), 0);
        self.slots.set_and_swap(i, &mut s);
        match &mut s.renderable {
            Some(r) => {
                r.color = color;
            },
            None => {},
        }
        self.slots.set_and_swap(i, &mut s);
        proof {
            assert(self@ =~= old(self)@.update(
                e.index as int,
                SlotModel {
                    renderable: Some(
                        Renderable {
                            spr: old(self)@[e.index as int].renderable->Some_0.spr,
                            color,
                        },
                    ),
                    ..old(self)@[e.index as int]
                },
            ));
        }
    }

    /// Attaches the bundle's components to a live entity: every component
    /// present in the bundle replaces the entity's, every marker set in the
    /// bundle is set, and everything absent from the bundle is kept. On a
    /// stale or unknown identifier the store is unchanged and
    /// `UnknownEntity` is returned.
    pub fn insert_components(&mut self, e: Entity, bundle: Bundle) -> (r: Result<(), WorldError>)
        ensures
            live_in(old(self)@, e) ==> r is Ok && final(self)@ == old(self)@.update(
                e.index as int,
                merged_model(old(self)@[e.index as int], bundle),
            ),
            !live_in(old(self)@, e) ==> r == Result::<(), WorldError>::Err(
                WorldError::UnknownEntity,
            ) && final(self)@ == old(self)@,
    {
        if !self.is_live(e) {
            return Err(WorldError::UnknownEntity);
        }
        let i = e.index;
        let mut s = Self::make_slot(Bundle::default(), 0);
        self.slots.set_and_swap(i, &mut s);
        let Bundle { position, name, player, ai, blocks_tile, viewshed, explosive, explosion, renderable } =
            bundle;
        if position.is_some() {
            s.position = position;
        }
        if name.is_some() {
            s.name = name;
        }
        if player {
            s.player = true;
        }
        if ai {
            s.ai = true;
        }
        if blocks_tile {
            s.blocks_tile = true;
        }
        if viewshed.is_some() {
            s.viewshed = viewshed;
        }
        if explosive.is_some() {
            s.explosive = explosive;
        }
        if explosion.is_some() {
            s.explosion = explosion;
        }
        if renderable.is_some() {
            s.renderable = renderable;
        }
        self.slots.set_and_swap(i, &mut s);
        proof {
            assert(self@ =~= old(self)@.update(
                e.index as int,
                merged_model(old(self)@[e.index as int], bundle),
            ));
        }
        Ok(())
    }

    /// Detaches one component from a live entity (a no-op when the entity
    /// does not carry it). On a stale or unknown identifier the store is
    /// unchanged and `UnknownEntity` is returned.
    pub fn remove_component(&mut self, e: Entity, c: ComponentKind) -> (r: Result<
        (),
        WorldError,
    >)
        ensures
            live_in(old(self)@, e) ==> r is Ok && final(self)@ == old(self)@.update(
                e.index as int,
                removed_model(old(self)@[e.index as int], c),
            ),
            !live_in(old(self)@, e) ==> r == Result::<(), WorldError>::Err(
                WorldError::UnknownEntity,
            ) && final(self)@ == old(self)@,
    {
        if !self.is_live(e) {
            return Err(WorldError::UnknownEntity);
        }
        let i = e.index;
        let mut s = Self::make_slot(Bundle::default(), 0);
        self.slots.set_and_swap(i, &mut s);
        match c {
            ComponentKind::Position => {
                s.position = None;
            },
            ComponentKind::Name => {
                s.name = None;
            },
            ComponentKind::Player => {
                s.player = false;
            },
            ComponentKind::Ai => {
                s.ai = false;
            },
            ComponentKind::BlocksTile => {
                s.blocks_tile = false;
            },
            ComponentKind::Viewshed => {
                s.viewshed = None;
            },
            ComponentKind::Explosive => {
                s.explosive = None;
            },
            ComponentKind::Explosion => {
                s.explosion = None;
            },
            ComponentKind::Renderable => {
                s.renderable = None;
            },
        }
        self.slots.set_and_swap(i, &mut s);
        proof {
            assert(self@ =~= old(self)@.update(
                e.index as int,
                removed_model(old(self)@[e.index as int], c),
            ));
        }
        Ok(())
    }

    /// A copy of the display name of a live entity, if it has one.
    pub fn name_clone(&self, e: Entity) -> (r: Option<String>)
        ensures
            match r {
                Some(n) => live_in(self@, e) && self@[e.index as int].name == Some(n@),
                None => !live_in(self@, e) || self@[e.index as int].name is None,
            },
    {
        if self.is_live(e) {
            proof {
                assert(self@[e.index as int] == slot_model(self.slots@[e.index as int]));
            }
            match &self.slots[e.index].name {
                Some(n) => Some(n.clone()),
                None => None,
            }
        } else {
            None
        }
    }
}

} // verus!
