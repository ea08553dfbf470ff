//! The per-entity game state that the rules read and change: the type tag,
//! the air supply and the score. The physical state (transforms, rigid
//! body, collision radius, drawing) is the host's, carried as `body`.
use vstd::prelude::*;

use crate::entity::{EntityId, EntityStore};
use crate::spatial::{SpatialDbRef, SpatialId};

verus! {

pub const TICKS_PER_SECOND: u64 = 30;

/// Air a new ship starts with: one minute.
pub const SHIP_AIR: u64 = TICKS_PER_SECOND * 60;

/// Air a new air pod starts with: fifteen seconds.
pub const AIR_POD_AIR: u64 = TICKS_PER_SECOND * 15;

/// Points for each air pod collected, on top of the air it held.
pub const AIR_POD_BONUS: u64 = 1000;

#[derive(Clone, Copy, Debug, PartialEq, Eq, Structural)]
pub enum GameObjectType {
    Ship,
    Asteroid,
    AidPod,
    /// Stand-in for the arena wall in boundary contacts; never stored.
    Dummy,
}

#[derive(Clone, Copy, Debug, PartialEq, Eq, Structural)]
pub struct Score(pub u64);

/// Remaining air, in ticks. Ships and air pods have it; one unit goes each
/// tick.
#[derive(Clone, Copy, Debug, PartialEq, Eq, Structural)]
pub struct AirSupply {
    pub air: u64,
}

pub struct GameObject<B> {
    pub body: B,
    pub spatial_db_ref: SpatialDbRef,
    pub air_supply: Option<AirSupply>,
    pub score: Option<Score>,
    pub object_type: GameObjectType,
}

impl<B> GameObject<B> {
    pub open spec fn spec_air(&self) -> u64 {
        match self.air_supply {
            Some(a) => a.air,
            None => 0,
        }
    }

    pub open spec fn spec_score(&self) -> u64 {
        match self.score {
            Some(s) => s.0,
            None => 0,
        }
    }

    pub open spec fn fresh(&self, t: GameObjectType, air: Option<AirSupply>, score: Option<Score>) -> bool {
        &&& self.object_type == t
        &&& self.air_supply == air
        &&& self.score == score
        &&& !self.spatial_db_ref.spatial_id.valid()
    }

    /// The player's craft: a minute of air and a score.
    pub fn new_ship(body: B) -> (r: Self)
        ensures
            r.fresh(GameObjectType::Ship, Some(AirSupply { air: SHIP_AIR }), Some(Score(0))),
            r.body == body,
    {
        GameObject {
            body,
            spatial_db_ref: SpatialDbRef { spatial_id: SpatialId::new() },
            air_supply: Some(AirSupply { air: SHIP_AIR }),
            score: Some(Score(0)),
            object_type: GameObjectType::Ship,
        }
    }

    /// An air pod: fifteen seconds of air, no score.
    pub fn new_air_pod(body: B) -> (r: Self)
        ensures
            r.fresh(GameObjectType::AidPod, Some(AirSupply { air: AIR_POD_AIR }), None),
            r.body == body,
    {
        GameObject {
            body,
            spatial_db_ref: SpatialDbRef { spatial_id: SpatialId::new() },
            air_supply: Some(AirSupply { air: AIR_POD_AIR }),
            score: None,
            object_type: GameObjectType::AidPod,
        }
    }

    /// An obstacle: neither air nor score.
    pub fn new_asteroid(body: B) -> (r: Self)
        ensures
            r.fresh(GameObjectType::Asteroid, None, None),
            r.body == body,
    {
        GameObject {
            body,
            spatial_db_ref: SpatialDbRef { spatial_id: SpatialId::new() },
            air_supply: None,
            score: None,
            object_type: GameObjectType::Asteroid,
        }
    }

    /// The wall stand-in of boundary contacts.
    pub fn new_dummy(body: B) -> (r: Self)
        ensures
            r.fresh(GameObjectType::Dummy, None, None),
            r.body == body,
    {
        GameObject {
            body,
            spatial_db_ref: SpatialDbRef { spatial_id: SpatialId::new() },
            air_supply: None,
            score: None,
            object_type: GameObjectType::Dummy,
        }
    }

    /// Remaining air; none counts as zero.
    pub fn air(&self) -> (r: u64)
        ensures
            r == self.spec_air(),
    {
        match &self.air_supply {
            Some(a) => a.air,
            None => 0,
        }
    }
}

/// `o` after one tick of air loss: one unit less, never below zero.
pub open spec fn after_air_tick<B>(o: GameObject<B>) -> GameObject<B> {
    GameObject {
        air_supply: match o.air_supply {
            Some(a) => Some(AirSupply { air: if a.air == 0 { 0 } else { (a.air - 1) as u64 } }),
            None => None,
        },
        ..o
    }
}

/// One tick of air loss for every entity that has air.
pub fn check_air<B>(objects: &mut EntityStore<GameObject<B>>)
    ensures
        final(objects)@.len() == old(objects)@.len(),
        forall|i: int|
            0 <= i < old(objects)@.len() ==> #[trigger] final(objects)@[i] == after_air_tick(
                old(objects)@[i],
            ),
{
    let n = objects.len();
    let mut i: usize = 0;
    while i < n
        invariant
            n == old(objects)@.len(),
            objects@.len() == n,
            i <= n,
            forall|j: int| 0 <= j < i ==> #[trigger] objects@[j] == after_air_tick(old(objects)@[j]),
            forall|j: int| i <= j < n ==> #[trigger] objects@[j] == old(objects)@[j],
        decreases n - i,
    {
        let obj = objects.get_mut(EntityId(i));
        if let Some(air) = obj.air_supply.as_mut() {
            air.air = air.air.saturating_sub(1);
        }
        i += 1;
    }
}

/// One of the two is a ship and the other an air pod.
pub open spec fn spec_is_air_pickup(t1: GameObjectType, t2: GameObjectType) -> bool {
    (t1 == GameObjectType::AidPod && t2 == GameObjectType::Ship) || (t1 == GameObjectType::Ship
        && t2 == GameObjectType::AidPod)
}

pub fn is_air_pickup(t1: GameObjectType, t2: GameObjectType) -> (r: bool)
    ensures
        r == spec_is_air_pickup(t1, t2),
{
    (t1 == GameObjectType::AidPod && t2 == GameObjectType::Ship) || (t1 == GameObjectType::Ship
        && t2 == GameObjectType::AidPod)
}

/// The ship `s` after taking in `air` units of air: its air grows by them,
/// and its score, if any, by them plus the bonus.
pub open spec fn after_collect<B>(s: GameObject<B>, air: u64) -> GameObject<B> {
    GameObject {
        air_supply: match s.air_supply {
            Some(a) => Some(AirSupply { air: (a.air + air) as u64 }),
            None => None,
        },
        score: match s.score {
            Some(sc) => Some(Score((sc.0 + air + AIR_POD_BONUS) as u64)),
            None => None,
        },
        ..s
    }
}

/// A collection can go through without overflow.
pub open spec fn collect_fits<B>(s: GameObject<B>, pod: GameObject<B>) -> bool {
    &&& s.spec_air() + pod.spec_air() <= u64::MAX
    &&& (s.score matches Some(sc) ==> sc.0 + pod.spec_air() + AIR_POD_BONUS <= u64::MAX)
}

/// The contact of ship and air pod `id1`, `id2` (in either order) during
/// one tick, where `relocate` is the air pod already collected this tick,
/// if any. When none was and both have air, the ship takes in the pod's
/// air and scores it plus the bonus, and the pod is returned as the one
/// to move away. Otherwise nothing changes and `relocate` is returned:
/// a tick collects one pod at most, however often its contact comes up.
pub fn collect_air<B>(
    objects: &mut EntityStore<GameObject<B>>,
    id1: EntityId,
    id2: EntityId,
    relocate: Option<EntityId>,
) -> (r: Option<EntityId>)
    requires
        id1.0 < old(objects)@.len(),
        id2.0 < old(objects)@.len(),
        id1.0 != id2.0,
        spec_is_air_pickup(old(objects)@[id1.0 as int].object_type, old(objects)@[id2.0 as int].object_type),
        old(objects)@[id1.0 as int].object_type == GameObjectType::Ship ==> collect_fits(
            old(objects)@[id1.0 as int],
            old(objects)@[id2.0 as int],
        ),
        old(objects)@[id2.0 as int].object_type == GameObjectType::Ship ==> collect_fits(
            old(objects)@[id2.0 as int],
            old(objects)@[id1.0 as int],
        ),
    ensures
        ({
            let o1 = old(objects)@[id1.0 as int];
            let o2 = old(objects)@[id2.0 as int];
            let (ship, pod) = if o1.object_type == GameObjectType::Ship {
                (id1, id2)
            } else {
                (id2, id1)
            };
            if relocate is Some || o1.air_supply is None || o2.air_supply is None {
                r == relocate && final(objects)@ == old(objects)@
            } else {
                &&& r == Some(pod)
                &&& final(objects)@ == old(objects)@.update(
                    ship.0 as int,
                    after_collect(old(objects)@[ship.0 as int], old(objects)@[pod.0 as int].spec_air()),
                )
            }
        }),
{
    let (obj1, obj2) = objects.get_mut_pair(id1, id2);
    let (Some(air1), Some(air2)) = (obj1.air_supply.as_mut(), obj2.air_supply.as_mut()) else {
        return relocate;
    };
    if relocate.is_some() {
        // possible to have same collision twice, so make sure to only do this once
        return relocate;
    }
    if obj1.object_type == GameObjectType::Ship {
        air1.air = air1.air + air2.air;
        if let Some(score) = obj1.score.as_mut() {
            score.0 = score.0 + air2.air + AIR_POD_BONUS;
        }
        Some(id2)
    } else {
        air2.air = air2.air + air1.air;
        if let Some(score) = obj2.score.as_mut() {
            score.0 = score.0 + air1.air + AIR_POD_BONUS;
        }
        Some(id1)
    }
}

} // verus!

verus! {

/// `o` after `k` ticks of air loss.
pub open spec fn after_air_ticks<B>(o: GameObject<B>, k: nat) -> GameObject<B>
    decreases k,
{
    if k == 0 {
        o
    } else {
        after_air_tick(after_air_ticks(o, (k - 1) as nat))
    }
}

/// Each tick takes one unit of air, down to zero and never below: after
/// `k` ticks an entity with `a` units has `a - k` left, or zero once
/// `k >= a`. An entity without air stays without, and nothing else of it
/// changes.
pub proof fn lemma_air_ticks<B>(o: GameObject<B>, k: nat)
    ensures
        after_air_ticks(o, k).spec_air() == if k >= o.spec_air() {
            0
        } else {
            o.spec_air() - k
        },
        (after_air_ticks(o, k).air_supply is Some) == (o.air_supply is Some),
        after_air_ticks(o, k).score == o.score,
        after_air_ticks(o, k).object_type == o.object_type,
        after_air_ticks(o, k).spatial_db_ref == o.spatial_db_ref,
        after_air_ticks(o, k).body == o.body,
    decreases k,
{
    if k > 0 {
        lemma_air_ticks(o, (k - 1) as nat);
    }
}

/// A collection adds the pod's air to the ship's, and the pod's air plus
/// the bonus to the ship's score; nothing else of the ship changes.
pub proof fn lemma_collect_totals<B>(ship: GameObject<B>, pod_air: u64)
    requires
        ship.air_supply is Some,
        ship.score is Some,
        ship.spec_air() + pod_air <= u64::MAX,
        ship.spec_score() + pod_air + AIR_POD_BONUS <= u64::MAX,
    ensures
        after_collect(ship, pod_air).spec_air() == ship.spec_air() + pod_air,
        after_collect(ship, pod_air).spec_score() == ship.spec_score() + pod_air + AIR_POD_BONUS,
        after_collect(ship, pod_air).object_type == ship.object_type,
        after_collect(ship, pod_air).spatial_db_ref == ship.spatial_db_ref,
        after_collect(ship, pod_air).body == ship.body,
{
}

} // verus!
