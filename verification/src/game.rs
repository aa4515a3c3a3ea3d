//! The turn pipeline: map index, input, AI, movement, collisions, damage,
//! field of view, and the timed explosion tick, over the entity store and
//! the event channel.
//!
//! Each handler runs once per turn, to completion, in a fixed order. Events
//! flow through the broadcast channel; structural changes (spawns and
//! despawns) happen between events of the handler's own event list, never
//! during an iteration of the store, so no query is ever invalidated.

use vstd::prelude::*;

use crate::events::{EventChannel, ReaderId};
use crate::fov::{fov_window_ok, visible_spec, window_check, Opacity};
use crate::fov;
use crate::geom::{pt, Grid, Point};
use crate::gfx::{CP437, Color, Renderable};
use crate::world::{
    bundle_model, live_in, Bundle, Entity, Explosion, SlotModel, ViewshedModel, World,
};

verus! {

/// One terrain cell. A wall both blocks movement and blocks sight; floors
/// and stairs do neither.
#[derive(Clone, Copy, PartialEq, Eq, Structural, Debug)]
pub enum Tile {
    Wall,
    Floor,
    StairUp,
}

impl Tile {
    /// Whether the tile blocks movement.
    pub open spec fn blocked_spec(self) -> bool {
        self is Wall
    }

    /// Whether the tile blocks sight.
    pub open spec fn opaque_spec(self) -> bool {
        self is Wall
    }

    /// Whether the tile blocks movement.
    pub fn blocked(&self) -> (b: bool)
        ensures
            b == self.blocked_spec(),
    {
        matches!(self, Tile::Wall)
    }

    /// Whether the tile blocks sight.
    pub fn opaque(&self) -> (b: bool)
        ensures
            b == self.opaque_spec(),
    {
        matches!(self, Tile::Wall)
    }
}

/// A tile grid is an opacity source: a cell blocks sight when it lies on
/// the map and holds an opaque tile; everything beyond the map edge is
/// transparent.
impl Opacity for Grid<Tile> {
    open spec fn op(&self, p: Point) -> bool {
        self.contains_pt_spec(p) && self.cell(p.x as int, p.y as int).opaque_spec()
    }

    open spec fn src_wf(&self) -> bool {
        self.wf()
    }

    fn is_opaque(&self, p: Point) -> (b: bool) {
        if self.contains_pt(p) {
            self.at(p).opaque()
        } else {
            false
        }
    }
}

/// The directional and rest commands that the turn pipeline understands.
#[derive(Clone, Copy, PartialEq, Eq, Structural, Debug)]
pub enum Key {
    Up,
    Down,
    Left,
    Right,
    Period,
    Escape,
    Other,
}

/// The most recent key of the frame, already debounced to one logical
/// command per turn.
#[derive(Clone, Copy, PartialEq, Eq, Structural, Debug)]
pub struct KeyState {
    pub key: Option<Key>,
    pub repeat: bool,
}

impl Default for KeyState {
    /// No key pressed.
    fn default() -> (k: KeyState)
        ensures
            k.key is None,
            !k.repeat,
    {
        KeyState { key: None, repeat: false }
    }
}

/// A turn event: a movement intent, a collision between two entities, or
/// damage dealt to an entity.
#[derive(Clone, Copy, PartialEq, Eq, Structural, Debug)]
pub enum Event {
    Move(Entity, Point),
    Collision(Entity, Entity),
    TakeDamage(Entity, i32),
}

/// The map: terrain, plus the per-turn derived spatial index (which
/// entities occupy which cell, and the merged blocking mask) and the
/// persistent explored mask.
pub struct GameMap {
    pub entrance: Point,
    pub tiles: Grid<Tile>,
    pub entities: Grid<Vec<Entity>>,
    pub blocked: Grid<bool>,
    pub explored: Grid<bool>,
}

impl GameMap {
    /// Shape invariant: all four grids share the same dimensions.
    pub open spec fn wf(&self) -> bool {
        &&& self.tiles.wf()
        &&& self.entities.wf()
        &&& self.blocked.wf()
        &&& self.explored.wf()
        &&& self.entities.width == self.tiles.width
        &&& self.entities.height == self.tiles.height
        &&& self.blocked.width == self.tiles.width
        &&& self.blocked.height == self.tiles.height
        &&& self.explored.width == self.tiles.width
        &&& self.explored.height == self.tiles.height
    }

    /// Executable test of the shape invariant [`GameMap::wf`].
    pub fn check_wf(&self) -> (b: bool)
        ensures
            b == self.wf(),
    {
        self.tiles.check_wf() && self.entities.check_wf() && self.blocked.check_wf()
            && self.explored.check_wf() && self.entities.width == self.tiles.width
            && self.entities.height == self.tiles.height && self.blocked.width == self.tiles.width
            && self.blocked.height == self.tiles.height && self.explored.width == self.tiles.width
            && self.explored.height == self.tiles.height
    }

    /// A fresh all-wall map with the entrance at the origin, nothing
    /// explored and the index empty.
    pub fn new(w: i32, h: i32) -> (m: GameMap)
        requires
            0 <= w,
            0 <= h,
            w * h <= i32::MAX,
        ensures
            m.wf(),
            m.tiles.width == w,
            m.tiles.height == h,
            m.entrance == (Point { x: 0i32, y: 0i32 }),
            forall|i: int| 0 <= i < m.tiles@.len() ==> m.tiles@[i] == Tile::Wall,
            forall|i: int| 0 <= i < m.blocked@.len() ==> m.blocked@[i] == false,
            forall|i: int| 0 <= i < m.explored@.len() ==> m.explored@[i] == false,
            forall|i: int| 0 <= i < m.entities@.len() ==> (#[trigger] m.entities@[i])@
                == Seq::<Entity>::empty(),
    {
        let tiles = Grid::new(w, h, Tile::Wall);
        let entities = Grid::<Vec<Entity>>::new_lists(w, h);
        let blocked = Grid::new(w, h, false);
        let explored = Grid::new(w, h, false);
        GameMap { entrance: pt(0, 0), tiles, entities, blocked, explored }
    }

    /// Empties every cell of the entity index.
    pub fn clear_entities(&mut self)
        requires
            old(self).wf(),
        ensures
            final(self).wf(),
            final(self).tiles == old(self).tiles,
            final(self).entrance == old(self).entrance,
            final(self).blocked == old(self).blocked,
            final(self).explored == old(self).explored,
            forall|i: int|
                0 <= i < final(self).entities@.len() ==> (#[trigger] final(self).entities@[i])@
                    == Seq::<Entity>::empty(),
    {
        self.entities = Grid::<Vec<Entity>>::new_lists(self.entities.width, self.entities.height);
    }

    /// Recomputes the blocking mask from the terrain alone.
    pub fn calc_blocked_from_tile(&mut self)
        requires
            old(self).wf(),
        ensures
            final(self).wf(),
            final(self).tiles == old(self).tiles,
            final(self).entrance == old(self).entrance,
            final(self).entities == old(self).entities,
            final(self).explored == old(self).explored,
            forall|x: int, y: int|
                final(self).blocked.in_bounds_spec(x, y) ==> #[trigger] final(self).blocked.cell(
                    x,
                    y,
                ) == old(self).tiles.cell(x, y).blocked_spec(),
    {
        let h = self.tiles.height;
        let w = self.tiles.width;
        let mut y: i32 = 0;
        while y < h
            invariant
                0 <= y <= h,
                w == self.tiles.width,
                h == self.tiles.height,
                self.wf(),
                self.tiles == old(self).tiles,
                self.entrance == old(self).entrance,
                self.entities == old(self).entities,
                self.explored == old(self).explored,
                forall|x2: int, y2: int|
                    self.blocked.in_bounds_spec(x2, y2) && y2 < y ==> #[trigger] self.blocked.cell(
                        x2,
                        y2,
                    ) == old(self).tiles.cell(x2, y2).blocked_spec(),
            decreases h - y,
        {
            let mut x: i32 = 0;
            while x < w
                invariant
                    0 <= y < h,
                    0 <= x <= w,
                    w == self.tiles.width,
                    h == self.tiles.height,
                    self.wf(),
                    self.tiles == old(self).tiles,
                    self.entrance == old(self).entrance,
                    self.entities == old(self).entities,
                    self.explored == old(self).explored,
                    forall|x2: int, y2: int|
                        self.blocked.in_bounds_spec(x2, y2) && (y2 < y || (y2 == y && x2 < x))
                            ==> #[trigger] self.blocked.cell(x2, y2) == old(self).tiles.cell(
                            x2,
                            y2,
                        ).blocked_spec(),
                decreases w - x,
            {
                let b = self.tiles.get(x, y).blocked();
                self.blocked.put(x, y, b);
                x += 1;
            }
            y += 1;
        }
    }
}

/// The per-turn spatial index that movement and collision resolution read:
/// dimensions, blocking mask, and per-cell occupant lists.
#[verifier::ext_equal]
pub ghost struct IndexView {
    pub width: int,
    pub height: int,
    pub blocked: Seq<bool>,
    pub entities: Seq<Seq<Entity>>,
}

/// The index that a map currently holds.
pub open spec fn index_view(m: GameMap) -> IndexView {
    IndexView {
        width: m.tiles.width as int,
        height: m.tiles.height as int,
        blocked: m.blocked@,
        entities: m.entities@.map_values(|v: Vec<Entity>| v@),
    }
}

/// Whether `(x, y)` lies inside the index.
pub open spec fn iv_in_bounds(iv: IndexView, x: int, y: int) -> bool {
    0 <= x < iv.width && 0 <= y < iv.height
}

/// The whole mutable state of a running game: the entity store, the player
/// entity, the event channel, the map, and the latest input.
pub struct GameState {
    pub world: World,
    pub hero: Entity,
    pub chan: EventChannel<Event>,
    pub map: GameMap,
    pub input: KeyState,
}

impl GameState {
    /// Wraps a world, player entity and map into a fresh game state with an
    /// empty event channel and no input.
    pub fn new(world: World, hero: Entity, map: GameMap) -> (s: GameState)
        ensures
            s.world == world,
            s.hero == hero,
            s.map == map,
            s.input.key is None,
            s.chan.wf(),
            s.chan@.written == Seq::<Event>::empty(),
            s.chan@.cursors == Seq::<int>::empty(),
    {
        GameState { world, hero, chan: EventChannel::new(), map, input: KeyState::default() }
    }
}

/// The Move event that a directional key produces for the player.
pub open spec fn input_events_spec(k: Option<Key>, hero: Entity) -> Seq<Event> {
    match k {
        Some(kk) => if kk == Key::Up {
            seq![Event::Move(hero, Point { x: 0i32, y: -1i32 })]
        } else if kk == Key::Down {
            seq![Event::Move(hero, Point { x: 0i32, y: 1i32 })]
        } else if kk == Key::Left {
            seq![Event::Move(hero, Point { x: -1i32, y: 0i32 })]
        } else if kk == Key::Right {
            seq![Event::Move(hero, Point { x: 1i32, y: 0i32 })]
        } else {
            Seq::empty()
        },
        None => Seq::empty(),
    }
}

/// Whether the key counts as the player acting this turn (a step or an
/// explicit rest).
pub open spec fn input_acted_spec(k: Option<Key>) -> bool {
    match k {
        Some(kk) => kk == Key::Up || kk == Key::Down || kk == Key::Left || kk == Key::Right || kk
            == Key::Period,
        None => false,
    }
}

/// Translates the most recent directional key into exactly one Move event
/// for the player entity; returns whether the player acted (which gates
/// the AI).
pub fn input_handler(input: &KeyState, hero: Entity, chan: &mut EventChannel<Event>) -> (acted:
    bool)
    requires
        old(chan).wf(),
    ensures
        final(chan).wf(),
        final(chan)@.written == old(chan)@.written + input_events_spec(input.key, hero),
        final(chan)@.cursors == old(chan)@.cursors,
        acted == input_acted_spec(input.key),
{
    match input.key {
        Some(Key::Up) => {
            chan.single_write(Event::Move(hero, pt(0, -1)));
        },
        Some(Key::Down) => {
            chan.single_write(Event::Move(hero, pt(0, 1)));
        },
        Some(Key::Left) => {
            chan.single_write(Event::Move(hero, pt(-1, 0)));
        },
        Some(Key::Right) => {
            chan.single_write(Event::Move(hero, pt(1, 0)));
        },
        Some(Key::Period) => {},
        _ => {
            proof {
                assert(chan@.written =~= old(chan)@.written + input_events_spec(
                    input.key,
                    hero,
                ));
            }
            return false;
        },
    }
    proof {
        assert(chan@.written =~= old(chan)@.written + input_events_spec(input.key, hero));
    }
    true
}

/// The Move events the AI stage emits: every live AI-marked entity steps
/// toward decreasing x, in slot order.
pub open spec fn ai_events(w: Seq<SlotModel>, n: int) -> Seq<Event>
    decreases n,
{
    if n <= 0 {
        Seq::empty()
    } else {
        ai_events(w, n - 1) + if w[n - 1].alive && w[n - 1].ai {
            seq![
                Event::Move(
                    Entity { index: (n - 1) as usize, generation: w[n - 1].generation },
                    Point { x: -1i32, y: 0i32 },
                ),
            ]
        } else {
            Seq::empty()
        }
    }
}

/// For every live AI-marked entity, emits one Move event using its fixed
/// per-tick rule: always step toward decreasing x.
pub fn ai_handler(world: &World, chan: &mut EventChannel<Event>)
    requires
        old(chan).wf(),
    ensures
        final(chan).wf(),
        final(chan)@.written == old(chan)@.written + ai_events(world@, world@.len() as int),
        final(chan)@.cursors == old(chan)@.cursors,
{
    let n = world.slot_count();
    let mut i: usize = 0;
    while i < n
        invariant
            i <= n,
            n == world@.len(),
            chan.wf(),
            chan@.cursors == old(chan)@.cursors,
            chan@.written == old(chan)@.written + ai_events(world@, i as int),
        decreases n - i,
    {
        match world.entity_at(i) {
            Some(e) => {
                if world.has_ai(e) {
                    chan.single_write(Event::Move(e, pt(-1, 0)));
                }
            },
            None => {},
        }
        proof {
            assert(chan@.written =~= old(chan)@.written + ai_events(world@, i as int + 1));
        }
        i += 1;
    }
}

/// Whether the slot holds a live entity standing on cell `(x, y)`.
pub open spec fn slot_at(s: SlotModel, x: int, y: int) -> bool {
    s.alive && s.position == Some(Point { x: x as i32, y: y as i32 })
}

/// Whether the slot holds a live blocking entity standing on cell `(x, y)`.
pub open spec fn slot_blocks_at(s: SlotModel, x: int, y: int) -> bool {
    slot_at(s, x, y) && s.blocks_tile
}

/// The entities of the first `n` slots that stand on cell `(x, y)`, in
/// slot order.
pub open spec fn occupants(w: Seq<SlotModel>, n: int, x: int, y: int) -> Seq<Entity>
    decreases n,
{
    if n <= 0 {
        Seq::empty()
    } else {
        occupants(w, n - 1, x, y) + if slot_at(w[n - 1], x, y) {
            seq![Entity { index: (n - 1) as usize, generation: w[n - 1].generation }]
        } else {
            Seq::empty()
        }
    }
}

/// Rebuilds the per-turn spatial index: clears the entity index, recomputes
/// the blocking mask from the terrain, then folds in every live entity
/// (every occupant is recorded; blocking entities also set the mask).
/// An entity standing outside the map is skipped.
pub fn map_indexing_handler(world: &World, m: &mut GameMap)
    requires
        old(m).wf(),
    ensures
        final(m).wf(),
        final(m).tiles == old(m).tiles,
        final(m).entrance == old(m).entrance,
        final(m).explored == old(m).explored,
        forall|x: int, y: int|
            final(m).blocked.in_bounds_spec(x, y) ==> #[trigger] final(m).blocked.cell(x, y) == (
            old(m).tiles.cell(x, y).blocked_spec() || exists|j: int|
                0 <= j < world@.len() && slot_blocks_at(#[trigger] world@[j], x, y)),
        forall|x: int, y: int|
            final(m).entities.in_bounds_spec(x, y) ==> (#[trigger] final(m).entities.cell(x, y))@
                == occupants(world@, world@.len() as int, x, y),
{
    m.clear_entities();
    m.calc_blocked_from_tile();
    proof {
        assert forall|x: int, y: int| m.entities.in_bounds_spec(x, y) implies (
        #[trigger] m.entities.cell(x, y))@ == occupants(world@, 0, x, y) by {
            crate::geom::lemma_flat_index_bounds(
                x,
                y,
                m.entities.width as int,
                m.entities.height as int,
            );
        }
    }
    let n = world.slot_count();
    let mut i: usize = 0;
    while i < n
        invariant
            i <= n,
            n == world@.len(),
            m.wf(),
            m.tiles == old(m).tiles,
            m.entrance == old(m).entrance,
            m.explored == old(m).explored,
            forall|x: int, y: int|
                m.blocked.in_bounds_spec(x, y) ==> #[trigger] m.blocked.cell(x, y) == (old(
                    m,
                ).tiles.cell(x, y).blocked_spec() || exists|j: int|
                    0 <= j < i && slot_blocks_at(#[trigger] world@[j], x, y)),
            forall|x: int, y: int|
                m.entities.in_bounds_spec(x, y) ==> (#[trigger] m.entities.cell(x, y))@
                    == occupants(world@, i as int, x, y),
        decreases n - i,
    {
        match world.entity_at(i) {
            Some(e) => {
                match world.position(e) {
                    Some(p) => {
                        if m.entities.contains_pt(p) {
                            let mut lst = m.entities.replace_at(p, Vec::new());
                            lst.push(e);
                            let _ = m.entities.replace_at(p, lst);
                            if world.blocks_tile(e) {
                                m.blocked.put_at(p, true);
                            }
                        }
                    },
                    None => {},
                }
            },
            None => {},
        }
        proof {
            assert forall|x: int, y: int| m.entities.in_bounds_spec(x, y) implies (
            #[trigger] m.entities.cell(x, y))@ == occupants(world@, i as int + 1, x, y) by {
                if slot_at(world@[i as int], x, y) {
                    assert(occupants(world@, i as int + 1, x, y) =~= occupants(
                        world@,
                        i as int,
                        x,
                        y,
                    ).push(
                        Entity { index: i, generation: world@[i as int].generation },
                    ));
                } else {
                    assert(occupants(world@, i as int + 1, x, y) =~= occupants(
                        world@,
                        i as int,
                        x,
                        y,
                    ));
                }
            }
            assert forall|x: int, y: int| m.blocked.in_bounds_spec(x, y) implies
                #[trigger] m.blocked.cell(x, y) == (old(m).tiles.cell(x, y).blocked_spec()
                || exists|j: int| 0 <= j <= i && slot_blocks_at(#[trigger] world@[j], x, y)) by {
                if m.blocked.cell(x, y) && !old(m).tiles.cell(x, y).blocked_spec() {
                }
            }
        }
        i += 1;
    }
}

/// One Collision event against the mover `e` for each of the first `j`
/// occupants of a cell, in order.
pub open spec fn collision_list(s: Seq<Entity>, e: Entity, j: int) -> Seq<Event>
    decreases j,
{
    if j <= 0 {
        Seq::empty()
    } else {
        collision_list(s, e, j - 1) + seq![Event::Collision(e, s[j - 1])]
    }
}

/// The effect of one Move event: if the addressed entity is live and has a
/// position, the destination is computed; a destination off the map is a
/// no-op. Otherwise a Collision event is emitted against every occupant of
/// the destination recorded in the index, whether or not they block; if the
/// destination is blocked the move is rejected, else the entity steps there
/// and its viewshed (if any) is marked dirty.
pub open spec fn apply_move(w: Seq<SlotModel>, iv: IndexView, ev: Event) -> (
    Seq<SlotModel>,
    Seq<Event>,
) {
    match ev {
        Event::Move(e, d) => {
            if live_in(w, e) && w[e.index as int].position is Some {
                let p = w[e.index as int].position->Some_0;
                let nx = p.x + d.x;
                let ny = p.y + d.y;
                if !iv_in_bounds(iv, nx, ny) {
                    (w, Seq::<Event>::empty())
                } else {
                    let occ = iv.entities[nx + ny * iv.width];
                    let emitted = collision_list(occ, e, occ.len() as int);
                    if iv.blocked[nx + ny * iv.width] {
                        (w, emitted)
                    } else {
                        let s0 = w[e.index as int];
                        let s1 = SlotModel {
                            position: Some(Point { x: nx as i32, y: ny as i32 }),
                            viewshed: match s0.viewshed {
                                Some(v) => Some(ViewshedModel { dirty: true, ..v }),
                                None => None,
                            },
                            ..s0
                        };
                        (w.update(e.index as int, s1), emitted)
                    }
                }
            } else {
                (w, Seq::<Event>::empty())
            }
        },
        _ => (w, Seq::<Event>::empty()),
    }
}

/// The store and the emitted Collision events after the first `k` events
/// have been resolved by the Move handler.
pub open spec fn move_fold(w: Seq<SlotModel>, iv: IndexView, evs: Seq<Event>, k: int) -> (
    Seq<SlotModel>,
    Seq<Event>,
)
    decreases k,
{
    if k <= 0 {
        (w, Seq::<Event>::empty())
    } else {
        let pre = move_fold(w, iv, evs, k - 1);
        let st = apply_move(pre.0, iv, evs[k - 1]);
        (st.0, pre.1 + st.1)
    }
}

/// Consumes all Move events of this turn and resolves them against the map
/// index and blocking mask, emitting the resulting Collision events back
/// into the channel.
pub fn move_handler(
    world: &mut World,
    map: &GameMap,
    chan: &mut EventChannel<Event>,
    r: &ReaderId,
)
    requires
        map.wf(),
        old(chan).wf(),
        r.index < old(chan)@.cursors.len(),
    ensures
        final(chan).wf(),
        ({
            let evs = old(chan)@.written.subrange(
                old(chan)@.cursors[r.index as int],
                old(chan)@.written.len() as int,
            );
            let f = move_fold(old(world)@, index_view(*map), evs, evs.len() as int);
            &&& final(world)@ == f.0
            &&& final(chan)@.written == old(chan)@.written + f.1
            &&& final(chan)@.cursors == old(chan)@.cursors.update(
                r.index as int,
                old(chan)@.written.len() as int,
            )
        }),
{
    let evs = chan.read(r);
    let mut collisions: Vec<Event> = Vec::new();
    let ghost iv = index_view(*map);
    let n = evs.len();
    let mut k: usize = 0;
    while k < n
        invariant
            k <= n,
            n == evs@.len(),
            map.wf(),
            iv == index_view(*map),
            world@ == move_fold(old(world)@, iv, evs@, k as int).0,
            collisions@ == move_fold(old(world)@, iv, evs@, k as int).1,
        decreases n - k,
    {
        let ghost pre = move_fold(old(world)@, iv, evs@, k as int);
        let ev = evs[k];
        match ev {
            Event::Move(e, d) => {
                match world.position(e) {
                    Some(p) => {
                        let nx = (p.x as i64) + (d.x as i64);
                        let ny = (p.y as i64) + (d.y as i64);
                        if 0 <= nx && nx < map.tiles.width as i64 && 0 <= ny && ny
                            < map.tiles.height as i64 {
                            let npt = pt(nx as i32, ny as i32);
                            proof {
                                crate::geom::lemma_flat_index_bounds(
                                    nx as int,
                                    ny as int,
                                    map.entities.width as int,
                                    map.entities.height as int,
                                );
                            }
                            let occ = map.entities.at(npt);
                            let ghost occs = iv.entities[nx as int + ny as int * iv.width];
                            proof {
                                assert(occ@ == occs);
                            }
                            let m_occ = occ.len();
                            let mut j: usize = 0;
                            while j < m_occ
                                invariant
                                    j <= m_occ,
                                    m_occ == occs.len(),
                                    occ@ == occs,
                                    collisions@ == pre.1 + collision_list(occs, e, j as int),
                                decreases m_occ - j,
                            {
                                collisions.push(Event::Collision(e, occ[j]));
                                proof {
                                    assert(pre.1 + collision_list(occs, e, j as int + 1)
                                        =~= (pre.1 + collision_list(occs, e, j as int)).push(
                                        Event::Collision(e, occs[j as int]),
                                    ));
                                }
                                j += 1;
                            }
                            if *map.blocked.at(npt) {
                            } else {
                                world.set_position(e, npt);
                                world.mark_viewshed_dirty(e);
                                proof {
                                    let s0 = pre.0[e.index as int];
                                    let s1 = SlotModel {
                                        position: Some(npt),
                                        viewshed: match s0.viewshed {
                                            Some(v) => Some(ViewshedModel { dirty: true, ..v }),
                                            None => None,
                                        },
                                        ..s0
                                    };
                                    assert(world@ =~= pre.0.update(e.index as int, s1));
                                }
                            }
                        }
                    },
                    None => {},
                }
            },
            _ => {},
        }
        proof {
            let st = apply_move(pre.0, iv, evs@[k as int]);
            assert(move_fold(old(world)@, iv, evs@, k as int + 1) == (st.0, pre.1 + st.1));
            assert(world@ =~= st.0);
            assert(collisions@ =~= pre.1 + st.1);
        }
        k += 1;
    }
    chan.drain_vec_write(&mut collisions);
}

/// The blast pattern of a detonation: the center cell and its four
/// cardinal neighbours, in a fixed order.
pub open spec fn cross_offset(k: int) -> (int, int) {
    if k == 0 {
        (0, 0)
    } else if k == 1 {
        (1, 0)
    } else if k == 2 {
        (-1, 0)
    } else if k == 3 {
        (0, -1)
    } else {
        (0, 1)
    }
}

/// The bundle of a freshly spawned explosion effect at cell `n`.
pub open spec fn explosion_bundle(n: Point) -> Bundle {
    Bundle {
        position: Some(n),
        name: None,
        player: false,
        ai: false,
        blocks_tile: false,
        viewshed: None,
        explosive: None,
        explosion: Some(Explosion { duration_left: 6 }),
        renderable: Some(Renderable { spr: CP437::Filled3, color: Color::Red }),
    }
}

/// One TakeDamage event for each of the first `j` occupants of a blast
/// cell, the detonating entity itself excepted.
pub open spec fn cell_damage(s: Seq<Entity>, b: Entity, j: int) -> Seq<Event>
    decreases j,
{
    if j <= 0 {
        Seq::empty()
    } else {
        cell_damage(s, b, j - 1) + if s[j - 1] != b {
            seq![Event::TakeDamage(s[j - 1], 1i32)]
        } else {
            Seq::empty()
        }
    }
}

/// The store and damage events after the first `k` blast cells of a
/// detonation at `bp`: each representable blast cell gets a fresh
/// explosion-effect entity, and every other occupant recorded in the index
/// for that cell takes damage.
pub open spec fn detonation(
    w: Seq<SlotModel>,
    iv: IndexView,
    b: Entity,
    bp: Point,
    k: int,
) -> (Seq<SlotModel>, Seq<Event>)
    decreases k,
{
    if k <= 0 {
        (w, Seq::<Event>::empty())
    } else {
        let pre = detonation(w, iv, b, bp, k - 1);
        let off = cross_offset(k - 1);
        let nx = bp.x + off.0;
        let ny = bp.y + off.1;
        if i32::MIN <= nx <= i32::MAX && i32::MIN <= ny <= i32::MAX {
            let n = Point { x: nx as i32, y: ny as i32 };
            let w1 = crate::world::spawn_result(pre.0, explosion_bundle(n)).0;
            let dmg = if iv_in_bounds(iv, nx, ny) {
                let occ = iv.entities[nx + ny * iv.width];
                cell_damage(occ, b, occ.len() as int)
            } else {
                Seq::<Event>::empty()
            };
            (w1, pre.1 + dmg)
        } else {
            pre
        }
    }
}

/// The effect of one Collision event `Collision(a, b)`: if `a` is the live
/// player and `b` a live AI entity, `b` takes one damage; if `b` is a live
/// explosive with a position, it detonates (five explosion effects in a
/// cross, damage to every other occupant of the blast cells) and is
/// despawned, so a second collision against it this turn finds nothing to
/// detonate.
pub open spec fn apply_collision(w: Seq<SlotModel>, iv: IndexView, ev: Event) -> (
    Seq<SlotModel>,
    Seq<Event>,
) {
    match ev {
        Event::Collision(a, b) => {
            let dmg1 = if live_in(w, a) && w[a.index as int].player && live_in(w, b)
                && w[b.index as int].ai {
                seq![Event::TakeDamage(b, 1i32)]
            } else {
                Seq::<Event>::empty()
            };
            if live_in(w, b) && w[b.index as int].explosive is Some && w[b.index as int].position
                is Some {
                let bp = w[b.index as int].position->Some_0;
                let det = detonation(w, iv, b, bp, 5);
                let wd = det.0.update(
                    b.index as int,
                    SlotModel { alive: false, ..det.0[b.index as int] },
                );
                (wd, dmg1 + det.1)
            } else {
                (w, dmg1)
            }
        },
        _ => (w, Seq::<Event>::empty()),
    }
}

/// The store and emitted damage events after the first `k` events have
/// been resolved by the Collision handler.
pub open spec fn collision_fold(w: Seq<SlotModel>, iv: IndexView, evs: Seq<Event>, k: int) -> (
    Seq<SlotModel>,
    Seq<Event>,
)
    decreases k,
{
    if k <= 0 {
        (w, Seq::<Event>::empty())
    } else {
        let pre = collision_fold(w, iv, evs, k - 1);
        let st = apply_collision(pre.0, iv, evs[k - 1]);
        (st.0, pre.1 + st.1)
    }
}

/// Resolves every Collision event of this turn: combat on contact (the
/// player damages AI entities it collides with) and detonation of
/// explosives, emitting TakeDamage events back into the channel.
/// Detonation stages its spawns and despawn between events, never during a
/// store iteration.
pub fn collision_handler(
    world: &mut World,
    map: &GameMap,
    chan: &mut EventChannel<Event>,
    r: &ReaderId,
)
    requires
        map.wf(),
        old(chan).wf(),
        r.index < old(chan)@.cursors.len(),
    ensures
        final(chan).wf(),
        ({
            let evs = old(chan)@.written.subrange(
                old(chan)@.cursors[r.index as int],
                old(chan)@.written.len() as int,
            );
            let f = collision_fold(old(world)@, index_view(*map), evs, evs.len() as int);
            &&& final(world)@ == f.0
            &&& final(chan)@.written == old(chan)@.written + f.1
            &&& final(chan)@.cursors == old(chan)@.cursors.update(
                r.index as int,
                old(chan)@.written.len() as int,
            )
        }),
{
    let evs = chan.read(r);
    let mut events: Vec<Event> = Vec::new();
    let ghost iv = index_view(*map);
    let n = evs.len();
    let mut k: usize = 0;
    while k < n
        invariant
            k <= n,
            n == evs@.len(),
            map.wf(),
            iv == index_view(*map),
            world@ == collision_fold(old(world)@, iv, evs@, k as int).0,
            events@ == collision_fold(old(world)@, iv, evs@, k as int).1,
        decreases n - k,
    {
        let ghost pre = collision_fold(old(world)@, iv, evs@, k as int);
        let ev = evs[k];
        match ev {
            Event::Collision(a, b) => {
                if world.has_player(a) && world.has_ai(b) {
                    events.push(Event::TakeDamage(b, 1));
                }
                let ghost dmg1: Seq<Event> = if live_in(pre.0, a) && pre.0[a.index as int].player
                    && live_in(pre.0, b) && pre.0[b.index as int].ai {
                    seq![Event::TakeDamage(b, 1i32)]
                } else {
                    Seq::<Event>::empty()
                };
                proof {
                    assert(events@ =~= pre.1 + dmg1);
                }
                if world.has_explosive(b) {
                    match world.position(b) {
                        Some(bp) => {
                            let ghost wpre = world@;
                            let ghost epre = events@;
                            let mut c: usize = 0;
                            while c < 5
                                invariant
                                    c <= 5,
                                    map.wf(),
                                    iv == index_view(*map),
                                    world@ == detonation(wpre, iv, b, bp, c as int).0,
                                    events@ == epre + detonation(wpre, iv, b, bp, c as int).1,
                                    live_in(wpre, b),
                                    live_in(world@, b),
                                    world@[b.index as int] == wpre[b.index as int],
                                decreases 5 - c,
                            {
                                let ghost dpre = detonation(wpre, iv, b, bp, c as int);
                                let ox: i32 = if c == 0 {
                                    0
                                } else if c == 1 {
                                    1
                                } else if c == 2 {
                                    -1
                                } else {
                                    0
                                };
                                let oy: i32 = if c == 3 {
                                    -1
                                } else if c == 4 {
                                    1
                                } else {
                                    0
                                };
                                proof {
                                    assert((ox as int, oy as int) == cross_offset(c as int));
                                }
                                let nx = (bp.x as i64) + (ox as i64);
                                let ny = (bp.y as i64) + (oy as i64);
                                if i32::MIN as i64 <= nx && nx <= i32::MAX as i64
                                    && i32::MIN as i64 <= ny && ny <= i32::MAX as i64 {
                                    let npt = pt(nx as i32, ny as i32);
                                    let bundle = Bundle {
                                        position: Some(npt),
                                        name: None,
                                        player: false,
                                        ai: false,
                                        blocks_tile: false,
                                        viewshed: None,
                                        explosive: None,
                                        explosion: Some(Explosion { duration_left: 6 }),
                                        renderable: Some(
                                            Renderable { spr: CP437::Filled3, color: Color::Red },
                                        ),
                                    };
                                    proof {
                                        assert(bundle == explosion_bundle(npt));
                                    }
                                    let _ = world.spawn(bundle);
                                    if map.entities.in_bounds(nx as i32, ny as i32) {
                                        proof {
                                            crate::geom::lemma_flat_index_bounds(
                                                nx as int,
                                                ny as int,
                                                map.entities.width as int,
                                                map.entities.height as int,
                                            );
                                        }
                                        let occ = map.entities.at(npt);
                                        let ghost occs = iv.entities[nx as int + ny as int
                                            * iv.width];
                                        proof {
                                            assert(occ@ == occs);
                                        }
                                        let m_occ = occ.len();
                                        let mut j: usize = 0;
                                        while j < m_occ
                                            invariant
                                                j <= m_occ,
                                                m_occ == occs.len(),
                                                occ@ == occs,
                                                events@ == epre + dpre.1 + cell_damage(
                                                    occs,
                                                    b,
                                                    j as int,
                                                ),
                                            decreases m_occ - j,
                                        {
                                            let o = occ[j];
                                            if !(o.index == b.index && o.generation
                                                == b.generation) {
                                                events.push(Event::TakeDamage(o, 1));
                                            }
                                            proof {
                                                assert(epre + dpre.1 + cell_damage(
                                                    occs,
                                                    b,
                                                    j as int + 1,
                                                ) =~= if occs[j as int] != b {
                                                    (epre + dpre.1 + cell_damage(
                                                        occs,
                                                        b,
                                                        j as int,
                                                    )).push(
                                                        Event::TakeDamage(occs[j as int], 1i32),
                                                    )
                                                } else {
                                                    epre + dpre.1 + cell_damage(occs, b, j as int)
                                                });
                                            }
                                            j += 1;
                                        }
                                        proof {
                                            assert(events@ =~= epre + detonation(
                                                wpre,
                                                iv,
                                                b,
                                                bp,
                                                c as int + 1,
                                            ).1);
                                        }
                                    } else {
                                        proof {
                                            assert(events@ =~= epre + detonation(
                                                wpre,
                                                iv,
                                                b,
                                                bp,
                                                c as int + 1,
                                            ).1);
                                        }
                                    }
                                }
                                c += 1;
                            }
                            let _ = world.despawn(b);
                            proof {
                                let det = detonation(wpre, iv, b, bp, 5);
                                assert(live_in(det.0, b));
                                assert(world@ =~= det.0.update(
                                    b.index as int,
                                    SlotModel { alive: false, ..det.0[b.index as int] },
                                ));
                            }
                        },
                        None => {},
                    }
                }
            },
            _ => {},
        }
        proof {
            let st = apply_collision(pre.0, iv, evs@[k as int]);
            assert(collision_fold(old(world)@, iv, evs@, k as int + 1) == (st.0, pre.1 + st.1));
            assert(world@ =~= st.0);
            assert(events@ =~= pre.1 + st.1);
        }
        k += 1;
    }
    chan.drain_vec_write(&mut events);
}

/// The effect of one TakeDamage event: the addressed entity, if still
/// live, is despawned outright (there is no health pool: any damage is
/// lethal); a stale target is a no-op.
pub open spec fn apply_damage(w: Seq<SlotModel>, ev: Event) -> Seq<SlotModel> {
    match ev {
        Event::TakeDamage(e, amt) => if live_in(w, e) {
            w.update(e.index as int, SlotModel { alive: false, ..w[e.index as int] })
        } else {
            w
        },
        _ => w,
    }
}

/// The store after the first `k` events have been resolved by the Damage
/// handler.
pub open spec fn damage_fold(w: Seq<SlotModel>, evs: Seq<Event>, k: int) -> Seq<SlotModel>
    decreases k,
{
    if k <= 0 {
        w
    } else {
        apply_damage(damage_fold(w, evs, k - 1), evs[k - 1])
    }
}

/// Once an event of the list has despawned an entity, no later event of
/// the Damage handler revives it.
proof fn lemma_damage_fold_kills(
    w: Seq<SlotModel>,
    evs: Seq<Event>,
    k: int,
    j: int,
    e: Entity,
    amt: i32,
)
    requires
        0 <= k < j <= evs.len(),
        evs[k] == Event::TakeDamage(e, amt),
    ensures
        !live_in(damage_fold(w, evs, j), e),
    decreases j,
{
    if j == k + 1 {
    } else {
        lemma_damage_fold_kills(w, evs, k, j - 1, e, amt);
    }
}

/// Consumes every TakeDamage event of this turn and despawns the target;
/// after the handler, no entity addressed by a TakeDamage event of this
/// turn exists any more.
pub fn damage_handler(world: &mut World, chan: &mut EventChannel<Event>, r: &ReaderId)
    requires
        old(chan).wf(),
        r.index < old(chan)@.cursors.len(),
    ensures
        final(chan).wf(),
        final(chan)@.written == old(chan)@.written,
        final(chan)@.cursors == old(chan)@.cursors.update(
            r.index as int,
            old(chan)@.written.len() as int,
        ),
        ({
            let evs = old(chan)@.written.subrange(
                old(chan)@.cursors[r.index as int],
                old(chan)@.written.len() as int,
            );
            &&& final(world)@ == damage_fold(old(world)@, evs, evs.len() as int)
            &&& forall|k: int|
                0 <= k < evs.len() && #[trigger] evs[k] is TakeDamage ==> !live_in(
                    final(world)@,
                    evs[k]->TakeDamage_0,
                )
        }),
{
    let evs = chan.read(r);
    let n = evs.len();
    let mut k: usize = 0;
    while k < n
        invariant
            k <= n,
            n == evs@.len(),
            world@ == damage_fold(old(world)@, evs@, k as int),
        decreases n - k,
    {
        let ev = evs[k];
        match ev {
            Event::TakeDamage(e, _amt) => {
                let _ = world.despawn(e);
            },
            _ => {},
        }
        proof {
            assert(world@ =~= damage_fold(old(world)@, evs@, k as int + 1));
        }
        k += 1;
    }
    proof {
        assert forall|k2: int| 0 <= k2 < evs@.len() && #[trigger] evs@[k2] is TakeDamage implies
            !live_in(world@, evs@[k2]->TakeDamage_0) by {
            lemma_damage_fold_kills(
                old(world)@,
                evs@,
                k2,
                evs@.len() as int,
                evs@[k2]->TakeDamage_0,
                evs@[k2]->TakeDamage_1,
            );
        }
    }
}

/// Whether the FOV stage recomputes this slot: a live entity with a
/// position and a dirty viewshed whose sight window is representable.
pub open spec fn fov_active(s: SlotModel) -> bool {
    &&& s.alive
    &&& s.position is Some
    &&& s.viewshed is Some
    &&& s.viewshed->Some_0.dirty
    &&& fov_window_ok(s.position->Some_0, s.viewshed->Some_0.range as int)
}

/// What the FOV stage turns a slot into: a recomputed visible set and a
/// clean dirty flag for active slots, everything else untouched.
pub open spec fn fov_slot_spec(s: SlotModel, tiles: Grid<Tile>) -> SlotModel {
    if fov_active(s) {
        SlotModel {
            viewshed: Some(
                ViewshedModel {
                    visible_tiles: visible_spec(
                        &tiles,
                        s.position->Some_0,
                        s.viewshed->Some_0.range as int,
                    ),
                    range: s.viewshed->Some_0.range,
                    dirty: false,
                },
            ),
            ..s
        }
    } else {
        s
    }
}

/// Whether some live player entity among the first `n` slots recomputes
/// its viewshed this turn and sees cell `(x, y)`.
pub open spec fn player_sees_upto(
    w: Seq<SlotModel>,
    tiles: Grid<Tile>,
    n: int,
    x: int,
    y: int,
) -> bool {
    exists|i: int|
        0 <= i < n && (#[trigger] w[i]).player && fov_active(w[i]) && visible_spec(
            &tiles,
            w[i].position->Some_0,
            w[i].viewshed->Some_0.range as int,
        ).contains(Point { x: x as i32, y: y as i32 })
}

/// For every entity with a dirty viewshed, recomputes the visible set via
/// the FOV engine using the map's opacity (a wall blocks sight, cells
/// beyond the map edge do not), clears the dirty flag, and — for the
/// player — marks every newly visible in-bounds cell as explored. The
/// explored mask only ever grows.
pub fn fov_handler(world: &mut World, tiles: &Grid<Tile>, explored: &mut Grid<bool>)
    requires
        tiles.wf(),
        old(explored).wf(),
    ensures
        final(world)@.len() == old(world)@.len(),
        forall|i: int|
            0 <= i < old(world)@.len() ==> #[trigger] final(world)@[i] == fov_slot_spec(
                old(world)@[i],
                *tiles,
            ),
        final(explored).wf(),
        final(explored).width == old(explored).width,
        final(explored).height == old(explored).height,
        forall|x: int, y: int|
            final(explored).in_bounds_spec(x, y) ==> #[trigger] final(explored).cell(x, y) == (old(
                explored,
            ).cell(x, y) || player_sees_upto(old(world)@, *tiles, old(world)@.len() as int, x, y)),
        forall|x: int, y: int|
            final(explored).in_bounds_spec(x, y) && old(explored).cell(x, y)
                ==> #[trigger] final(explored).cell(x, y),
{
    let n = world.slot_count();
    let mut i: usize = 0;
    while i < n
        invariant
            i <= n,
            n == world@.len(),
            n == old(world)@.len(),
            tiles.wf(),
            explored.wf(),
            explored.width == old(explored).width,
            explored.height == old(explored).height,
            forall|j: int|
                0 <= j < n ==> #[trigger] world@[j] == (if j < i {
                    fov_slot_spec(old(world)@[j], *tiles)
                } else {
                    old(world)@[j]
                }),
            forall|x: int, y: int|
                explored.in_bounds_spec(x, y) ==> #[trigger] explored.cell(x, y) == (old(
                    explored,
                ).cell(x, y) || player_sees_upto(old(world)@, *tiles, i as int, x, y)),
        decreases n - i,
    {
        let ghost w0 = old(world)@;
        match world.entity_at(i) {
            Some(e) => {
                if world.viewshed_dirty(e) {
                    match world.position(e) {
                        Some(p) => {
                            let range = world.viewshed_range(e);
                            if window_check(p, range) {
                                let vis = fov::calculate(p, range, tiles);
                                let ghost pre_explored = *explored;
                                if world.has_player(e) {
                                    let pts = vis.as_points();
                                    let m_pts = pts.len();
                                    let mut j: usize = 0;
                                    while j < m_pts
                                        invariant
                                            j <= m_pts,
                                            m_pts == pts@.len(),
                                            pts@.to_set() == vis@,
                                            explored.wf(),
                                            explored.width == pre_explored.width,
                                            explored.height == pre_explored.height,
                                            forall|x: int, y: int|
                                                explored.in_bounds_spec(x, y)
                                                    ==> #[trigger] explored.cell(x, y) == (
                                                pre_explored.cell(x, y) || exists|m: int|
                                                    0 <= m < j && pts@[m] == (Point {
                                                        x: x as i32,
                                                        y: y as i32,
                                                    })),
                                        decreases m_pts - j,
                                    {
                                        let q = pts[j];
                                        if explored.contains_pt(q) {
                                            explored.put_at(q, true);
                                        }
                                        proof {
                                            assert forall|x: int, y: int|
                                                explored.in_bounds_spec(x, y) implies
                                                #[trigger] explored.cell(x, y) == (
                                            pre_explored.cell(x, y) || exists|m: int|
                                                0 <= m < j + 1 && pts@[m] == (Point {
                                                    x: x as i32,
                                                    y: y as i32,
                                                })) by {
                                                if explored.cell(x, y) && !pre_explored.cell(
                                                    x,
                                                    y,
                                                ) {
                                                    if q == (Point { x: x as i32, y: y as i32 }) {
                                                        assert(pts@[j as int] == (Point {
                                                            x: x as i32,
                                                            y: y as i32,
                                                        }));
                                                    }
                                                }
                                            }
                                        }
                                        j += 1;
                                    }
                                    proof {
                                        assert forall|x: int, y: int|
                                            explored.in_bounds_spec(x, y) implies
                                            #[trigger] explored.cell(x, y) == (pre_explored.cell(
                                            x,
                                            y,
                                        ) || vis@.contains(Point { x: x as i32, y: y as i32 }))
                                            by {
                                            let pq = Point { x: x as i32, y: y as i32 };
                                            if vis@.contains(pq) {
                                                assert(pts@.contains(pq));
                                                let m = choose|m: int|
                                                    0 <= m < pts@.len() && pts@[m] == pq;
                                                assert(explored.cell(x, y));
                                            }
                                            if explored.cell(x, y) && !pre_explored.cell(x, y) {
                                                let m = choose|m: int|
                                                    0 <= m < pts@.len() && pts@[m] == pq;
                                                assert(pts@.contains(pq));
                                                assert(pts@.to_set().contains(pq));
                                            }
                                        }
                                    }
                                }
                                world.set_viewshed_tiles(e, vis);
                            }
                        },
                        None => {},
                    }
                }
            },
            None => {},
        }
        proof {
            assert forall|j: int|
                0 <= j < n implies #[trigger] world@[j] == (if j < i + 1 {
                fov_slot_spec(w0[j], *tiles)
            } else {
                w0[j]
            }) by {
                if j == i as int && world@[j] != w0[j] {
                    assert(world@[j] =~= fov_slot_spec(w0[j], *tiles));
                }
                if j == i as int && world@[j] == w0[j] && !fov_active(w0[j]) {
                    assert(fov_slot_spec(w0[j], *tiles) == w0[j]);
                }
            }
            assert forall|x: int, y: int| explored.in_bounds_spec(x, y) implies
                #[trigger] explored.cell(x, y) == (old(explored).cell(x, y) || player_sees_upto(
                w0,
                *tiles,
                i as int + 1,
                x,
                y,
            )) by {
                let pq = Point { x: x as i32, y: y as i32 };
                if player_sees_upto(w0, *tiles, i as int + 1, x, y) && !player_sees_upto(
                    w0,
                    *tiles,
                    i as int,
                    x,
                    y,
                ) {
                    let ii = choose|ii: int|
                        0 <= ii < i + 1 && (#[trigger] w0[ii]).player && fov_active(w0[ii])
                            && visible_spec(
                            tiles,
                            w0[ii].position->Some_0,
                            w0[ii].viewshed->Some_0.range as int,
                        ).contains(pq);
                    assert(ii == i as int);
                    assert(explored.cell(x, y));
                }
                if explored.cell(x, y) && !old(explored).cell(x, y) && !player_sees_upto(
                    w0,
                    *tiles,
                    i as int,
                    x,
                    y,
                ) {
                    assert(player_sees_upto(w0, *tiles, i as int + 1, x, y));
                }
            }
        }
        i += 1;
    }
}

/// What the timed-effect tick turns a slot into: a live explosion effect
/// has its remaining duration decremented, switches its glyph at fixed
/// thresholds (and turns bright yellow for the last step), and is
/// despawned when the duration reaches zero.
pub open spec fn explosion_slot_spec(s: SlotModel) -> SlotModel {
    if s.alive && s.explosion is Some && s.renderable is Some {
        let d = s.explosion->Some_0.duration_left;
        if d == 0 {
            SlotModel { alive: false, ..s }
        } else {
            let nd = (d - 1) as u8;
            let s1 = SlotModel { explosion: Some(Explosion { duration_left: nd }), ..s };
            if nd == 0 {
                SlotModel { alive: false, ..s1 }
            } else if nd == 3 {
                SlotModel {
                    renderable: Some(
                        Renderable { spr: CP437::Filled3, color: s.renderable->Some_0.color },
                    ),
                    ..s1
                }
            } else if nd == 2 {
                SlotModel {
                    renderable: Some(
                        Renderable { spr: CP437::Filled2, color: s.renderable->Some_0.color },
                    ),
                    ..s1
                }
            } else if nd == 1 {
                SlotModel {
                    renderable: Some(
                        Renderable { spr: CP437::Filled1, color: Color::YellowBright },
                    ),
                    ..s1
                }
            } else {
                s1
            }
        }
    } else {
        s
    }
}

/// Advances every ongoing explosion effect by one tick. This stage runs on
/// a slower real-time cadence than the turn clock; the caller decides when
/// enough wall-clock time has accumulated.
pub fn explosion_handler(world: &mut World)
    ensures
        final(world)@.len() == old(world)@.len(),
        forall|i: int|
            0 <= i < old(world)@.len() ==> #[trigger] final(world)@[i] == explosion_slot_spec(
                old(world)@[i],
            ),
{
    let n = world.slot_count();
    let mut i: usize = 0;
    while i < n
        invariant
            i <= n,
            n == world@.len(),
            n == old(world)@.len(),
            forall|j: int|
                0 <= j < n ==> #[trigger] world@[j] == (if j < i {
                    explosion_slot_spec(old(world)@[j])
                } else {
                    old(world)@[j]
                }),
        decreases n - i,
    {
        let ghost w0 = old(world)@;
        match world.entity_at(i) {
            Some(e) => {
                match world.explosion_duration(e) {
                    Some(d) => {
                        match world.renderable(e) {
                            Some(_r) => {
                                if d == 0 {
                                    let _ = world.despawn(e);
                                } else {
                                    let nd = d - 1;
                                    world.set_explosion_duration(e, nd);
                                    if nd == 0 {
                                        let _ = world.despawn(e);
                                    } else if nd == 3 {
                                        world.set_sprite(e, CP437::Filled3);
                                    } else if nd == 2 {
                                        world.set_sprite(e, CP437::Filled2);
                                    } else if nd == 1 {
                                        world.set_sprite(e, CP437::Filled1);
                                        world.set_color(e, Color::YellowBright);
                                    }
                                }
                            },
                            None => {},
                        }
                    },
                    None => {},
                }
            },
            None => {},
        }
        proof {
            assert forall|j: int|
                0 <= j < n implies #[trigger] world@[j] == (if j < i + 1 {
                explosion_slot_spec(w0[j])
            } else {
                w0[j]
            }) by {
                if j == i as int {
                    assert(world@[j] =~= explosion_slot_spec(w0[j]));
                }
            }
        }
        i += 1;
    }
}

/// The per-turn pipeline: three private readers over the shared event
/// channel, one for each consuming stage.
pub struct Game {
    pub move_reader: ReaderId,
    pub collision_reader: ReaderId,
    pub damage_reader: ReaderId,
}

impl Game {
    /// Registers the three consuming stages' readers on the game's channel.
    pub fn new(state: &mut GameState) -> (g: Game)
        requires
            old(state).chan.wf(),
        ensures
            final(state).chan.wf(),
            final(state).world == old(state).world,
            final(state).map == old(state).map,
            final(state).hero == old(state).hero,
            final(state).input == old(state).input,
            final(state).chan@.written == old(state).chan@.written,
            g.move_reader.index == old(state).chan@.cursors.len(),
            g.collision_reader.index == old(state).chan@.cursors.len() + 1,
            g.damage_reader.index == old(state).chan@.cursors.len() + 2,
            final(state).chan@.cursors == old(state).chan@.cursors.push(
                old(state).chan@.written.len() as int,
            ).push(old(state).chan@.written.len() as int).push(
                old(state).chan@.written.len() as int,
            ),
    {
        let move_reader = state.chan.register_reader();
        let collision_reader = state.chan.register_reader();
        let damage_reader = state.chan.register_reader();
        Game { move_reader, collision_reader, damage_reader }
    }

    /// Runs one full turn, in the fixed order: map-index rebuild, input
    /// translation, AI intents (only when the player acted), movement
    /// resolution, collision resolution, damage resolution, and the FOV
    /// refresh; finally the channel is compacted. The timed explosion tick
    /// is driven separately, on its own wall-clock cadence, through
    /// [`explosion_handler`].
    pub fn update(&self, state: &mut GameState) -> (acted: bool)
        requires
            old(state).map.wf(),
            old(state).chan.wf(),
            self.move_reader.index < old(state).chan@.cursors.len(),
            self.collision_reader.index < old(state).chan@.cursors.len(),
            self.damage_reader.index < old(state).chan@.cursors.len(),
            self.move_reader.index != self.collision_reader.index,
            self.move_reader.index != self.damage_reader.index,
            self.collision_reader.index != self.damage_reader.index,
        ensures
            final(state).chan.wf(),
            final(state).map.wf(),
            final(state).hero == old(state).hero,
            final(state).input == old(state).input,
            final(state).map.tiles == old(state).map.tiles,
            final(state).map.entrance == old(state).map.entrance,
            acted == input_acted_spec(old(state).input.key),
            // the index is rebuilt, before movement, from the world at entry
            forall|x: int, y: int|
                final(state).map.blocked.in_bounds_spec(x, y) ==> #[trigger] final(state).map.blocked.cell(x, y) == (old(state).map.tiles.cell(x, y).blocked_spec()
                || exists|j: int|
                    0 <= j < old(state).world@.len() && slot_blocks_at(
                        #[trigger] old(state).world@[j],
                        x,
                        y,
                    )),
            forall|x: int, y: int|
                final(state).map.entities.in_bounds_spec(x, y) ==> (#[trigger] final(state).map.entities.cell(x, y))@ == occupants(
                    old(state).world@,
                    old(state).world@.len() as int,
                    x,
                    y,
                ),
            // the pipeline, stage by stage
            ({
                let w0 = old(state).world@;
                let iv = index_view(final(state).map);
                let hero = old(state).hero;
                let key = old(state).input.key;
                let written0 = old(state).chan@.written;
                let cursors0 = old(state).chan@.cursors;
                let w_in = written0 + input_events_spec(key, hero);
                let w_ai = if input_acted_spec(key) {
                    w_in + ai_events(w0, w0.len() as int)
                } else {
                    w_in
                };
                let mv_evs = w_ai.subrange(
                    cursors0[self.move_reader.index as int],
                    w_ai.len() as int,
                );
                let mv = move_fold(w0, iv, mv_evs, mv_evs.len() as int);
                let w_mv = w_ai + mv.1;
                let col_evs = w_mv.subrange(
                    cursors0[self.collision_reader.index as int],
                    w_mv.len() as int,
                );
                let col = collision_fold(mv.0, iv, col_evs, col_evs.len() as int);
                let w_col = w_mv + col.1;
                let dmg_evs = w_col.subrange(
                    cursors0[self.damage_reader.index as int],
                    w_col.len() as int,
                );
                let w3 = damage_fold(col.0, dmg_evs, dmg_evs.len() as int);
                &&& final(state).chan@.written == w_col
                &&& final(state).chan@.cursors == cursors0.update(
                    self.move_reader.index as int,
                    w_ai.len() as int,
                ).update(self.collision_reader.index as int, w_mv.len() as int).update(
                    self.damage_reader.index as int,
                    w_col.len() as int,
                )
                &&& final(state).world@.len() == w3.len()
                &&& forall|i: int|
                    0 <= i < w3.len() ==> #[trigger] final(state).world@[i] == fov_slot_spec(
                        w3[i],
                        old(state).map.tiles,
                    )
                &&& forall|x: int, y: int|
                    final(state).map.explored.in_bounds_spec(x, y) ==> #[trigger] final(state).map.explored.cell(x, y) == (old(state).map.explored.cell(x, y)
                        || player_sees_upto(w3, old(state).map.tiles, w3.len() as int, x, y))
                // an entity damaged this turn no longer exists at turn end
                &&& forall|k: int|
                    0 <= k < dmg_evs.len() && #[trigger] dmg_evs[k] is TakeDamage ==> !live_in(
                        final(state).world@,
                        dmg_evs[k]->TakeDamage_0,
                    )
            }),
            // explored is monotonic over the whole turn
            forall|x: int, y: int|
                final(state).map.explored.in_bounds_spec(x, y) && old(state).map.explored.cell(
                    x,
                    y,
                ) ==> #[trigger] final(state).map.explored.cell(x, y),
    {
        map_indexing_handler(&state.world, &mut state.map);
        let ghost iv = index_view(state.map);
        let acted = input_handler(&state.input, state.hero, &mut state.chan);
        if acted {
            ai_handler(&state.world, &mut state.chan);
        }
        proof {
            let w_in = old(state).chan@.written + input_events_spec(
                old(state).input.key,
                old(state).hero,
            );
            assert(state.chan@.written =~= if input_acted_spec(old(state).input.key) {
                w_in + ai_events(old(state).world@, old(state).world@.len() as int)
            } else {
                w_in
            });
        }
        move_handler(&mut state.world, &state.map, &mut state.chan, &self.move_reader);
        collision_handler(&mut state.world, &state.map, &mut state.chan, &self.collision_reader);
        damage_handler(&mut state.world, &mut state.chan, &self.damage_reader);
        fov_handler(&mut state.world, &state.map.tiles, &mut state.map.explored);
        state.chan.compact();
        proof {
            assert(index_view(state.map) =~= iv);
        }
        acted
    }
}

/// The Collision events against a cell's occupants are exactly one per
/// occupant, in cell order.
pub proof fn lemma_collision_list_index(s: Seq<Entity>, e: Entity, j: int)
    requires
        0 <= j,
    ensures
        collision_list(s, e, j).len() == j,
        forall|m: int|
            0 <= m < j ==> #[trigger] collision_list(s, e, j)[m] == Event::Collision(e, s[m]),
    decreases j,
{
    if j > 0 {
        lemma_collision_list_index(s, e, j - 1);
    }
}

/// A move into a blocked cell never changes the mover's position (nor any
/// other component of any entity), and emits exactly one Collision event
/// for every occupant of the destination recorded in the index -- even for
/// occupants that do not themselves block.
pub proof fn lemma_move_into_blocked(w: Seq<SlotModel>, iv: IndexView, e: Entity, d: Point)
    requires
        live_in(w, e),
        w[e.index as int].position is Some,
        ({
            let p = w[e.index as int].position->Some_0;
            iv_in_bounds(iv, p.x + d.x, p.y + d.y)
        }),
        ({
            let p = w[e.index as int].position->Some_0;
            iv.blocked[(p.x + d.x) + (p.y + d.y) * iv.width]
        }),
    ensures
        apply_move(w, iv, Event::Move(e, d)).0 == w,
        ({
            let p = w[e.index as int].position->Some_0;
            let occ = iv.entities[(p.x + d.x) + (p.y + d.y) * iv.width];
            let emitted = apply_move(w, iv, Event::Move(e, d)).1;
            &&& emitted.len() == occ.len()
            &&& forall|m: int|
                0 <= m < occ.len() ==> #[trigger] emitted[m] == Event::Collision(e, occ[m])
        }),
{
    let p = w[e.index as int].position->Some_0;
    let occ = iv.entities[(p.x + d.x) + (p.y + d.y) * iv.width];
    lemma_collision_list_index(occ, e, occ.len() as int);
}

/// 1 when the slot holds a live explosion effect, else 0.
pub open spec fn explosion_contrib(s: SlotModel) -> int {
    if s.alive && s.explosion is Some {
        1int
    } else {
        0int
    }
}

/// The number of live explosion-effect entities among the first `n` slots.
pub open spec fn explosion_count(w: Seq<SlotModel>, n: int) -> int
    decreases n,
{
    if n <= 0 {
        0
    } else {
        explosion_count(w, n - 1) + explosion_contrib(w[n - 1])
    }
}

proof fn lemma_explosion_count_congruent(w1: Seq<SlotModel>, w2: Seq<SlotModel>, n: int)
    requires
        forall|j: int| 0 <= j < n ==> w1[j] == w2[j],
    ensures
        explosion_count(w1, n) == explosion_count(w2, n),
    decreases n,
{
    if n > 0 {
        lemma_explosion_count_congruent(w1, w2, n - 1);
    }
}

proof fn lemma_explosion_count_update(w: Seq<SlotModel>, i: int, s: SlotModel, n: int)
    requires
        0 <= i < n <= w.len(),
    ensures
        explosion_count(w.update(i, s), n) == explosion_count(w, n) - explosion_contrib(w[i])
            + explosion_contrib(s),
    decreases n,
{
    if i == n - 1 {
        lemma_explosion_count_congruent(w.update(i, s), w, n - 1);
    } else {
        lemma_explosion_count_update(w, i, s, n - 1);
    }
}

proof fn lemma_explosion_count_push(w: Seq<SlotModel>, s: SlotModel)
    ensures
        explosion_count(w.push(s), w.len() as int + 1) == explosion_count(w, w.len() as int)
            + explosion_contrib(s),
{
    lemma_explosion_count_congruent(w.push(s), w, w.len() as int);
}

/// The first reusable slot lies within the store.
proof fn lemma_first_free_bounds(w: Seq<SlotModel>, i: int)
    requires
        0 <= i,
    ensures
        0 <= crate::world::first_free_from(w, i) <= w.len(),
    decreases w.len() - i,
{
    if i < w.len() {
        if !(!w[i].alive && w[i].generation < u32::MAX) {
            lemma_first_free_bounds(w, i + 1);
        }
    }
}

/// The first reusable slot, when there is one, is dead.
proof fn lemma_first_free_dead(w: Seq<SlotModel>, i: int)
    requires
        0 <= i,
    ensures
        crate::world::first_free_from(w, i) < w.len() ==> !w[crate::world::first_free_from(
            w,
            i,
        )].alive,
    decreases w.len() - i,
{
    if i < w.len() {
        if !(!w[i].alive && w[i].generation < u32::MAX) {
            lemma_first_free_dead(w, i + 1);
        }
    }
}

/// Spawning preserves every live entity and its slot, and raises the count
/// of live explosion effects by one exactly when the bundle carries an
/// explosion component.
proof fn lemma_spawn_effects(w: Seq<SlotModel>, b: Bundle)
    ensures
        ({
            let r = crate::world::spawn_result(w, b).0;
            &&& forall|o: Entity|
                live_in(w, o) ==> live_in(r, o) && r[o.index as int] == w[o.index as int]
            &&& explosion_count(r, r.len() as int) == explosion_count(w, w.len() as int) + (
            if b.explosion is Some {
                1int
            } else {
                0int
            })
        }),
{
    let ff = crate::world::first_free_from(w, 0);
    lemma_first_free_bounds(w, 0);
    lemma_first_free_dead(w, 0);
    let r = crate::world::spawn_result(w, b).0;
    if ff < w.len() {
        lemma_explosion_count_update(w, ff, bundle_model(b, (w[ff].generation + 1) as u32),
            w.len() as int);
    } else {
        lemma_explosion_count_push(w, bundle_model(b, 0));
    }
}

/// Each blast step of a detonation preserves every live entity (and its
/// components) and adds exactly one live explosion effect per
/// representable blast cell.
proof fn lemma_detonation_effects(
    w: Seq<SlotModel>,
    iv: IndexView,
    b: Entity,
    bp: Point,
    k: int,
)
    requires
        0 <= k <= 5,
        i32::MIN < bp.x < i32::MAX,
        i32::MIN < bp.y < i32::MAX,
    ensures
        ({
            let r = detonation(w, iv, b, bp, k).0;
            &&& forall|o: Entity|
                live_in(w, o) ==> live_in(r, o) && r[o.index as int] == w[o.index as int]
            &&& explosion_count(r, r.len() as int) == explosion_count(w, w.len() as int) + k
        }),
    decreases k,
{
    if k > 0 {
        lemma_detonation_effects(w, iv, b, bp, k - 1);
        let pre = detonation(w, iv, b, bp, k - 1);
        let off = cross_offset(k - 1);
        let nx = bp.x + off.0;
        let ny = bp.y + off.1;
        assert(i32::MIN <= nx <= i32::MAX && i32::MIN <= ny <= i32::MAX);
        let n = Point { x: nx as i32, y: ny as i32 };
        lemma_spawn_effects(pre.0, explosion_bundle(n));
    }
}

/// Detonation is exact and idempotent: a collision against a live
/// explosive entity spawns exactly 5 live explosion effects, preserves
/// every other live entity, and despawns the explosive; a further
/// collision against the same (now stale) identifier leaves the store
/// unchanged and emits nothing.
pub proof fn lemma_detonation_exact(w: Seq<SlotModel>, iv: IndexView, a: Entity, b: Entity)
    requires
        live_in(w, b),
        w[b.index as int].explosive is Some,
        w[b.index as int].position is Some,
        w[b.index as int].explosion is None,
        ({
            let bp = w[b.index as int].position->Some_0;
            i32::MIN < bp.x < i32::MAX && i32::MIN < bp.y < i32::MAX
        }),
    ensures
        ({
            let r = apply_collision(w, iv, Event::Collision(a, b)).0;
            &&& !live_in(r, b)
            &&& explosion_count(r, r.len() as int) == explosion_count(w, w.len() as int) + 5
            &&& forall|o: Entity|
                live_in(w, o) && o != b ==> live_in(r, o) && r[o.index as int] == w[o.index as int]
            &&& forall|a2: Entity|
                #![trigger apply_collision(r, iv, Event::Collision(a2, b))]
                apply_collision(r, iv, Event::Collision(a2, b)).0 == r && apply_collision(
                    r,
                    iv,
                    Event::Collision(a2, b),
                ).1 == Seq::<Event>::empty()
        }),
{
    let bp = w[b.index as int].position->Some_0;
    lemma_detonation_effects(w, iv, b, bp, 5);
    let det = detonation(w, iv, b, bp, 5);
    let r = apply_collision(w, iv, Event::Collision(a, b)).0;
    assert(r == det.0.update(b.index as int, SlotModel { alive: false, ..det.0[b.index as int] }));
    lemma_explosion_count_update(
        det.0,
        b.index as int,
        SlotModel { alive: false, ..det.0[b.index as int] },
        det.0.len() as int,
    );
    assert(explosion_contrib(det.0[b.index as int]) == 0);
    assert forall|o: Entity| live_in(w, o) && o != b implies live_in(r, o) && r[o.index as int]
        == w[o.index as int] by {
        assert(live_in(det.0, o));
        if o.index != b.index {
        } else {
            assert(det.0[o.index as int] == w[o.index as int]);
            assert(o.generation == b.generation);
        }
    }
}

} // verus!
