//! The discrete state of a game world: the entities with their air and
//! score, the spatial grid that indexes them, the keyboard, the tick clock
//! and the random seed. The host owns the continuous state (each entity's
//! `body`) and runs the physics phases of a tick; the world keeps the grid
//! in step with the entities and applies the rules.
use vstd::prelude::*;

use crate::clock::{TickClock, MICROS_PER_TICK};
use crate::control::{spec_command, update_player_controls, ControlCommand};
use crate::entity::{EntityId, EntityStore};
use crate::input::{InputManager, Key};
use crate::object::{after_air_tick, check_air, collect_fits, spec_is_air_pickup, after_collect, AirSupply, GameObject, GameObjectType};
use crate::spatial::{SpatialDb, MAX_ENTITIES, NO_SPATIAL_ID};

verus! {

pub struct GameWorld<B> {
    seed: u64,
    sequence: u32,
    entity_store: EntityStore<GameObject<B>>,
    spatial_db: SpatialDb,
    input_manager: InputManager,
    exit_ready: bool,
    control_object: Option<EntityId>,
    render_ready: bool,
    clock: TickClock,
}

impl<B> GameWorld<B> {
    pub closed spec fn spec_seed(&self) -> u64 {
        self.seed
    }

    pub closed spec fn spec_sequence(&self) -> u32 {
        self.sequence
    }

    pub closed spec fn entities(&self) -> Seq<GameObject<B>> {
        self.entity_store@
    }

    pub closed spec fn spatial(&self) -> SpatialDb {
        self.spatial_db
    }

    pub closed spec fn input(&self) -> InputManager {
        self.input_manager
    }

    pub closed spec fn spec_clock(&self) -> TickClock {
        self.clock
    }

    pub closed spec fn spec_exit_ready(&self) -> bool {
        self.exit_ready
    }

    pub closed spec fn spec_control_object(&self) -> Option<EntityId> {
        self.control_object
    }

    /// The grid holds exactly the world's entities, each where its
    /// `spatial_db_ref` says, or not at all when that says "none".
    pub open spec fn wf(&self) -> bool {
        &&& self.spatial().wf()
        &&& self.input().wf()
        &&& self.spec_clock().wf()
        &&& self.entities().len() <= MAX_ENTITIES
        &&& forall|i: int|
            0 <= i < self.entities().len() ==> self.spatial().tracks(
                i as usize,
                #[trigger] self.entities()[i].spatial_db_ref,
            )
        &&& forall|id: usize| #[trigger] self.spatial().holds(id) ==> id < self.entities().len()
        &&& (self.spec_control_object() matches Some(c) ==> c.0 < self.entities().len())
    }

    /// A world of `dim * dim` grid cells with no entities.
    pub fn new(seed: u64, dim: u32) -> (r: Self)
        requires
            0 < dim,
            dim * dim < NO_SPATIAL_ID,
        ensures
            r.wf(),
            r.spec_seed() == seed,
            r.spec_sequence() == 0,
            r.entities().len() == 0,
            r.spatial().spec_dim() == dim,
            r.spec_control_object() is None,
            !r.spec_exit_ready(),
            r.spec_render_ready(),
    {
        GameWorld {
            seed,
            sequence: 0,
            entity_store: EntityStore::new(),
            spatial_db: SpatialDb::new(dim),
            input_manager: InputManager::new(),
            exit_ready: false,
            control_object: None,
            render_ready: true,
            clock: TickClock::new(),
        }
    }

    pub fn get_seed(&self) -> (r: u64)
        ensures
            r == self.spec_seed(),
    {
        self.seed
    }

    /// The next sequence number: each random draw of the world gets a new
    /// one, so no two draws share a key.
    pub fn get_sequence(&mut self) -> (r: u32)
        requires
            old(self).spec_sequence() < u32::MAX,
        ensures
            r == old(self).spec_sequence() + 1,
            final(self).spec_sequence() == r,
            final(self).spec_seed() == old(self).spec_seed(),
            final(self).entities() == old(self).entities(),
            final(self).spatial() == old(self).spatial(),
            final(self).input() == old(self).input(),
            final(self).spec_clock() == old(self).spec_clock(),
            final(self).spec_control_object() == old(self).spec_control_object(),
            final(self).spec_exit_ready() == old(self).spec_exit_ready(),
    {
        self.sequence = self.sequence + 1;
        self.sequence
    }

    /// The last sequence number handed out.
    pub fn sequence(&self) -> (r: u32)
        ensures
            r == self.spec_sequence(),
    {
        self.sequence
    }

    /// Virtual time, in microseconds.
    pub fn virtual_time(&self) -> (r: u128)
        ensures
            r == self.spec_clock().spec_virtual_time(),
    {
        self.clock.virtual_time()
    }

    pub fn is_exit_ready(&self) -> (r: bool)
        ensures
            r == self.spec_exit_ready(),
    {
        self.exit_ready
    }

    pub closed spec fn spec_render_ready(&self) -> bool {
        self.render_ready
    }

    /// The last update asks for a new frame.
    pub fn ready_for_redraw(&self) -> (r: bool)
        ensures
            r == self.spec_render_ready(),
    {
        self.render_ready
    }

    pub fn get_control_object(&self) -> (r: Option<EntityId>)
        ensures
            r == self.spec_control_object(),
    {
        self.control_object
    }

    pub fn set_control_object(&mut self, id: EntityId)
        requires
            old(self).wf(),
            id.0 < old(self).entities().len(),
        ensures
            final(self).wf(),
            final(self).spec_control_object() == Some(id),
            final(self).entities() == old(self).entities(),
            final(self).spatial() == old(self).spatial(),
    {
        self.control_object = Some(id);
    }

    pub fn get_entities(&self) -> (r: &EntityStore<GameObject<B>>)
        ensures
            r@ == self.entities(),
    {
        &self.entity_store
    }

    pub fn get_spatial_db(&self) -> (r: &SpatialDb)
        ensures
            *r == self.spatial(),
    {
        &self.spatial_db
    }

    pub fn get_input(&self) -> (r: &InputManager)
        ensures
            *r == self.input(),
    {
        &self.input_manager
    }


    /// Stores `object`, puts it in the grid cell at `(cell_x, cell_y)` and
    /// returns its id.
    pub fn add_object(&mut self, object: GameObject<B>, cell_x: i64, cell_y: i64) -> (id: EntityId)
        requires
            old(self).wf(),
            !object.spatial_db_ref.spatial_id.valid(),
            old(self).entities().len() < MAX_ENTITIES,
        ensures
            final(self).wf(),
            id.0 == old(self).entities().len(),
            final(self).entities().len() == old(self).entities().len() + 1,
            final(self).entities()[id.0 as int].body == object.body,
            final(self).entities()[id.0 as int].air_supply == object.air_supply,
            final(self).entities()[id.0 as int].score == object.score,
            final(self).entities()[id.0 as int].object_type == object.object_type,
            final(self).entities()[id.0 as int].spatial_db_ref.spatial_id.0 == old(self).spatial().cell_at(
                cell_x as int,
                cell_y as int,
            ),
            forall|i: int| 0 <= i < old(self).entities().len() ==> #[trigger] final(self).entities()[i] == old(self).entities()[i],
            final(self).spec_seed() == old(self).spec_seed(),
            final(self).spec_sequence() == old(self).spec_sequence(),
            final(self).spec_control_object() == old(self).spec_control_object(),
    {
        let id = self.entity_store.insert(object);
        proof {
            assert(!self.spatial_db.holds(id.0));
        }
        self.place(id, cell_x, cell_y);
        id
    }

    /// Brings the grid up to date with entity `id`, now in the cell at
    /// `(cell_x, cell_y)`.
    pub fn move_object(&mut self, id: EntityId, cell_x: i64, cell_y: i64)
        requires
            old(self).wf(),
            id.0 < old(self).entities().len(),
        ensures
            final(self).wf(),
            final(self).entities().len() == old(self).entities().len(),
            final(self).entities()[id.0 as int].spatial_db_ref.spatial_id.0 == old(self).spatial().cell_at(
                cell_x as int,
                cell_y as int,
            ),
            forall|i: int| 0 <= i < old(self).entities().len() && i != id.0 ==> #[trigger] final(self).entities()[i] == old(self).entities()[i],
            final(self).entities()[id.0 as int].body == old(self).entities()[id.0 as int].body,
            final(self).entities()[id.0 as int].air_supply == old(self).entities()[id.0 as int].air_supply,
            final(self).entities()[id.0 as int].score == old(self).entities()[id.0 as int].score,
            final(self).entities()[id.0 as int].object_type == old(self).entities()[id.0 as int].object_type,
            final(self).spec_seed() == old(self).spec_seed(),
            final(self).spec_sequence() == old(self).spec_sequence(),
            final(self).spec_control_object() == old(self).spec_control_object(),
    {
        self.place(id, cell_x, cell_y);
    }

    fn place(&mut self, id: EntityId, cell_x: i64, cell_y: i64)
        requires
            old(self).spatial().wf(),
            old(self).input().wf(),
            old(self).spec_clock().wf(),
            old(self).entities().len() <= MAX_ENTITIES,
            id.0 < old(self).entities().len(),
            forall|i: int|
                0 <= i < old(self).entities().len() && i != id.0 ==> old(self).spatial().tracks(
                    i as usize,
                    #[trigger] old(self).entities()[i].spatial_db_ref,
                ),
            old(self).spatial().tracks(id.0, old(self).entities()[id.0 as int].spatial_db_ref),
            forall|x: usize| #[trigger] old(self).spatial().holds(x) ==> x < old(self).entities().len(),
            old(self).spec_control_object() matches Some(c) ==> c.0 < old(self).entities().len(),
        ensures
            final(self).wf(),
            final(self).entities().len() == old(self).entities().len(),
            final(self).entities()[id.0 as int].spatial_db_ref.spatial_id.0 == old(self).spatial().cell_at(
                cell_x as int,
                cell_y as int,
            ),
            forall|i: int| 0 <= i < old(self).entities().len() && i != id.0 ==> #[trigger] final(self).entities()[i] == old(self).entities()[i],
            final(self).entities()[id.0 as int].body == old(self).entities()[id.0 as int].body,
            final(self).entities()[id.0 as int].air_supply == old(self).entities()[id.0 as int].air_supply,
            final(self).entities()[id.0 as int].score == old(self).entities()[id.0 as int].score,
            final(self).entities()[id.0 as int].object_type == old(self).entities()[id.0 as int].object_type,
            final(self).spec_seed() == old(self).spec_seed(),
            final(self).spec_sequence() == old(self).spec_sequence(),
            final(self).spec_control_object() == old(self).spec_control_object(),
    {
        let ghost old_db = self.spatial_db;
        let obj = self.entity_store.get_mut(id);
        self.spatial_db.update(id, cell_x, cell_y, &mut obj.spatial_db_ref);
        proof {
            let n = self.entities().len();
            assert forall|i: int| 0 <= i < n implies self.spatial().tracks(
                i as usize,
                #[trigger] self.entities()[i].spatial_db_ref,
            ) by {
                if i != id.0 {
                    let r = self.entities()[i].spatial_db_ref;
                    assert(old_db.tracks(i as usize, r));
                    if !r.spatial_id.valid() {
                        if self.spatial_db.holds(i as usize) {
                            let c = choose|c: int| #[trigger] self.spatial_db.in_cell(c, i as usize);
                            assert(old_db.in_cell(c, i as usize));
                        }
                    }
                }
            }
            assert forall|x: usize| #[trigger] self.spatial().holds(x) implies x < n by {
                let c = choose|c: int| #[trigger] self.spatial_db.in_cell(c, x);
                if x != id.0 {
                    assert(old_db.in_cell(c, x));
                    assert(old(self).spatial().holds(x));
                }
            }
        }
    }

    /// The physical state of entity `id`, to change in place.
    pub fn body_mut(&mut self, id: EntityId) -> (r: &mut B)
        requires
            old(self).wf(),
            id.0 < old(self).entities().len(),
        ensures
            *r == old(self).entities()[id.0 as int].body,
            final(self).wf(),
            final(self).entities() == old(self).entities().update(
                id.0 as int,
                GameObject { body: *final(r), ..old(self).entities()[id.0 as int] },
            ),
            final(self).spatial() == old(self).spatial(),
            final(self).spec_seed() == old(self).spec_seed(),
            final(self).spec_sequence() == old(self).spec_sequence(),
            final(self).spec_control_object() == old(self).spec_control_object(),
    {
        &mut self.entity_store.get_mut(id).body
    }

    /// The physical states of two distinct entities, to change in place.
    pub fn bodies_mut_pair(&mut self, id1: EntityId, id2: EntityId) -> (r: (&mut B, &mut B))
        requires
            old(self).wf(),
            id1.0 < old(self).entities().len(),
            id2.0 < old(self).entities().len(),
            id1.0 != id2.0,
        ensures
            *r.0 == old(self).entities()[id1.0 as int].body,
            *r.1 == old(self).entities()[id2.0 as int].body,
            final(self).wf(),
            final(self).entities() == old(self).entities().update(
                id1.0 as int,
                GameObject { body: *final(r.0), ..old(self).entities()[id1.0 as int] },
            ).update(id2.0 as int, GameObject { body: *final(r.1), ..old(self).entities()[id2.0 as int] }),
            final(self).spatial() == old(self).spatial(),
            final(self).spec_seed() == old(self).spec_seed(),
            final(self).spec_sequence() == old(self).spec_sequence(),
            final(self).spec_control_object() == old(self).spec_control_object(),
    {
        let (obj1, obj2) = self.entity_store.get_mut_pair(id1, id2);
        (&mut obj1.body, &mut obj2.body)
    }

    /// Adds `elapsed_micros` of wall-clock time and returns how many ticks
    /// are due.
    pub fn update_time(&mut self, elapsed_micros: u128) -> (num_tick: u32)
        requires
            old(self).wf(),
            (old(self).spec_clock().spec_virtual_time() + elapsed_micros) / (MICROS_PER_TICK as int) <= u32::MAX,
        ensures
            final(self).wf(),
            final(self).spec_clock().spec_virtual_time() == old(self).spec_clock().spec_virtual_time() + elapsed_micros,
            num_tick == final(self).spec_clock().spec_virtual_time() / (MICROS_PER_TICK as int)
                - old(self).spec_clock().spec_virtual_time() / (MICROS_PER_TICK as int),
            final(self).entities() == old(self).entities(),
            final(self).spatial() == old(self).spatial(),
            final(self).input() == old(self).input(),
            final(self).spec_control_object() == old(self).spec_control_object(),
            final(self).spec_exit_ready() == old(self).spec_exit_ready(),
            final(self).spec_seed() == old(self).spec_seed(),
            final(self).spec_sequence() == old(self).spec_sequence(),
            final(self).spec_render_ready(),
    {
        let num_tick = self.clock.advance(elapsed_micros);
        // the frame rate is not capped: every update may redraw
        self.render_ready = true;
        num_tick
    }

    /// Microseconds since the start of the current tick.
    pub fn interp_micros(&self) -> (r: u64)
        requires
            self.wf(),
        ensures
            r == self.spec_clock().spec_virtual_time() % (MICROS_PER_TICK as int),
            r < MICROS_PER_TICK,
    {
        self.clock.interp_micros()
    }

    /// Escape going down or up asks to leave.
    pub fn check_exit(&mut self)
        requires
            old(self).wf(),
        ensures
            final(self).wf(),
            final(self).spec_exit_ready() == (old(self).spec_exit_ready() || old(self).input().makes().contains(
                Key::Escape,
            ) || old(self).input().breaks().contains(Key::Escape)),
            final(self).entities() == old(self).entities(),
            final(self).spatial() == old(self).spatial(),
            final(self).input() == old(self).input(),
            final(self).spec_control_object() == old(self).spec_control_object(),
    {
        if self.input_manager.exit_requested() {
            self.exit_ready = true;
        }
    }

    /// The controlled entity and what it does this tick, by the held keys
    /// and its air; none without a controlled entity.
    pub fn player_controls(&self) -> (r: Option<(EntityId, ControlCommand)>)
        requires
            self.wf(),
        ensures
            self.spec_control_object() is None ==> r is None,
            self.spec_control_object() matches Some(id) ==> r == Some(
                (
                    id,
                    spec_command(
                        self.entities()[id.0 as int].spec_air(),
                        self.input().down().contains(Key::ArrowLeft) || self.input().down().contains(Key::KeyA),
                        self.input().down().contains(Key::ArrowRight) || self.input().down().contains(Key::KeyD),
                        self.input().down().contains(Key::ArrowUp) || self.input().down().contains(Key::KeyW),
                    ),
                ),
            ),
    {
        match self.control_object {
            Some(id) => {
                let air = self.entity_store.get(id).air();
                Some((id, update_player_controls(&self.input_manager, air)))
            },
            None => None,
        }
    }

    /// The ship-and-air-pod contact rule of `object::collect_air`, on this
    /// world's entities.
    pub fn collect_air(&mut self, id1: EntityId, id2: EntityId, relocate: Option<EntityId>) -> (r: Option<EntityId>)
        requires
            old(self).wf(),
            id1.0 < old(self).entities().len(),
            id2.0 < old(self).entities().len(),
            id1.0 != id2.0,
            spec_is_air_pickup(old(self).entities()[id1.0 as int].object_type, old(self).entities()[id2.0 as int].object_type),
            old(self).entities()[id1.0 as int].object_type == GameObjectType::Ship ==> collect_fits(
                old(self).entities()[id1.0 as int],
                old(self).entities()[id2.0 as int],
            ),
            old(self).entities()[id2.0 as int].object_type == GameObjectType::Ship ==> collect_fits(
                old(self).entities()[id2.0 as int],
                old(self).entities()[id1.0 as int],
            ),
        ensures
            final(self).wf(),
            final(self).spatial() == old(self).spatial(),
            final(self).spec_seed() == old(self).spec_seed(),
            final(self).spec_sequence() == old(self).spec_sequence(),
            final(self).spec_control_object() == old(self).spec_control_object(),
            ({
                let o1 = old(self).entities()[id1.0 as int];
                let o2 = old(self).entities()[id2.0 as int];
                let (ship, pod) = if o1.object_type == GameObjectType::Ship {
                    (id1, id2)
                } else {
                    (id2, id1)
                };
                if relocate is Some || o1.air_supply is None || o2.air_supply is None {
                    r == relocate && final(self).entities() == old(self).entities()
                } else {
                    &&& r == Some(pod)
                    &&& final(self).entities() == old(self).entities().update(
                        ship.0 as int,
                        after_collect(old(self).entities()[ship.0 as int], old(self).entities()[pod.0 as int].spec_air()),
                    )
                }
            }),
    {
        let r = crate::object::collect_air(&mut self.entity_store, id1, id2, relocate);
        proof {
            assert forall|i: int| 0 <= i < self.entities().len() implies self.spatial().tracks(
                i as usize,
                #[trigger] self.entities()[i].spatial_db_ref,
            ) by {
                assert(self.entities()[i].spatial_db_ref == old(self).entities()[i].spatial_db_ref);
            }
        }
        r
    }

    /// Gives entity `id` a fresh supply of `air` units.
    pub fn reset_air(&mut self, id: EntityId, air: u64)
        requires
            old(self).wf(),
            id.0 < old(self).entities().len(),
        ensures
            final(self).wf(),
            final(self).entities() == old(self).entities().update(
                id.0 as int,
                GameObject { air_supply: Some(AirSupply { air }), ..old(self).entities()[id.0 as int] },
            ),
            final(self).spatial() == old(self).spatial(),
            final(self).spec_seed() == old(self).spec_seed(),
            final(self).spec_sequence() == old(self).spec_sequence(),
            final(self).spec_control_object() == old(self).spec_control_object(),
    {
        self.entity_store.get_mut(id).air_supply = Some(AirSupply { air });
    }

    /// Closes a tick: every entity with air loses one unit, and the key
    /// events are forgotten so that a later tick of the same update does
    /// not see them again.
    pub fn end_tick(&mut self)
        requires
            old(self).wf(),
        ensures
            final(self).wf(),
            final(self).entities().len() == old(self).entities().len(),
            forall|i: int|
                0 <= i < old(self).entities().len() ==> #[trigger] final(self).entities()[i] == after_air_tick(
                    old(self).entities()[i],
                ),
            final(self).input().makes() == Seq::<Key>::empty(),
            final(self).input().breaks() == Seq::<Key>::empty(),
            final(self).input().down() == old(self).input().down(),
            final(self).spatial() == old(self).spatial(),
            final(self).spec_seed() == old(self).spec_seed(),
            final(self).spec_sequence() == old(self).spec_sequence(),
            final(self).spec_control_object() == old(self).spec_control_object(),
    {
        check_air(&mut self.entity_store);
        self.input_manager.clear_events();
        proof {
            assert forall|i: int| 0 <= i < self.entities().len() implies self.spatial().tracks(
                i as usize,
                #[trigger] self.entities()[i].spatial_db_ref,
            ) by {
                assert(self.entities()[i] == after_air_tick(old(self).entities()[i]));
            }
        }
    }

    /// A key went down (`pressed`) or up.
    pub fn handle_key_event(&mut self, key: Key, pressed: bool)
        requires
            old(self).wf(),
        ensures
            final(self).wf(),
            pressed ==> final(self).input().down() == old(self).input().down().insert(key),
            !pressed ==> final(self).input().down() == old(self).input().down().remove(key),
            pressed ==> final(self).input().makes() == old(self).input().makes().push(key),
            !pressed ==> final(self).input().breaks() == old(self).input().breaks().push(key),
            final(self).entities() == old(self).entities(),
            final(self).spatial() == old(self).spatial(),
            final(self).spec_control_object() == old(self).spec_control_object(),
    {
        let _ = self.input_manager.input(key, pressed);
    }
}

} // verus!
