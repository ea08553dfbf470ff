use space_survival::control::{
    placement_step, player_command, update_player_controls, ControlCommand, Placement, Turn,
};
use space_survival::entity::{EntityId, EntityStore};
use space_survival::input::{InputManager, Key};
use space_survival::object::{
    check_air, collect_air, is_air_pickup, AirSupply, GameObject, GameObjectType, Score,
    AIR_POD_AIR, AIR_POD_BONUS, SHIP_AIR,
};

fn world() -> (EntityStore<GameObject<()>>, EntityId, EntityId, EntityId) {
    let mut store = EntityStore::new();
    let ship = store.insert(GameObject::new_ship(()));
    let rock = store.insert(GameObject::new_asteroid(()));
    let pod = store.insert(GameObject::new_air_pod(()));
    (store, ship, rock, pod)
}

#[test]
fn constructors_set_supply_and_score() {
    let (store, ship, rock, pod) = world();
    let s = store.get(ship);
    assert_eq!(s.object_type, GameObjectType::Ship);
    assert_eq!(s.air_supply, Some(AirSupply { air: 1800 }));
    assert_eq!(s.score, Some(Score(0)));
    assert!(!s.spatial_db_ref.spatial_id.is_valid());
    assert_eq!(store.get(rock).air_supply, None);
    assert_eq!(store.get(rock).score, None);
    assert_eq!(store.get(pod).air(), 450);
    assert_eq!(store.get(pod).score, None);
    assert_eq!(SHIP_AIR, 1800);
    assert_eq!(AIR_POD_AIR, 450);
    assert_eq!(GameObject::new_dummy(()).object_type, GameObjectType::Dummy);
}

#[test]
fn air_drops_once_per_tick() {
    let (mut store, ship, rock, pod) = world();
    for _ in 0..10 {
        check_air(&mut store);
    }
    assert_eq!(store.get(ship).air(), 1790);
    assert_eq!(store.get(pod).air(), 440);
    assert_eq!(store.get(rock).air_supply, None);
}

#[test]
fn air_never_goes_below_zero() {
    let (mut store, ship, _rock, pod) = world();
    store.get_mut(pod).air_supply = Some(AirSupply { air: 2 });
    for _ in 0..5 {
        check_air(&mut store);
    }
    assert_eq!(store.get(pod).air_supply, Some(AirSupply { air: 0 }));
    assert_eq!(store.get(ship).air(), 1795);
}

#[test]
fn pickup_pair_needs_ship_and_pod() {
    let (ship, pod) = (GameObjectType::Ship, GameObjectType::AidPod);
    assert!(is_air_pickup(ship, pod));
    assert!(is_air_pickup(pod, ship));
    assert!(!is_air_pickup(ship, GameObjectType::Asteroid));
    assert!(!is_air_pickup(pod, pod));
    assert!(!is_air_pickup(ship, GameObjectType::Dummy));
}

#[test]
fn collecting_adds_pod_air_and_bonus() {
    let (mut store, ship, _rock, pod) = world();
    store.get_mut(ship).air_supply = Some(AirSupply { air: 100 });
    store.get_mut(ship).score = Some(Score(7));
    store.get_mut(pod).air_supply = Some(AirSupply { air: 333 });
    let relocate = collect_air(&mut store, ship, pod, None);
    assert_eq!(relocate, Some(pod));
    assert_eq!(store.get(ship).air(), 433);
    assert_eq!(store.get(ship).score, Some(Score(7 + 333 + AIR_POD_BONUS)));
    assert_eq!(store.get(pod).air(), 333);
}

#[test]
fn collecting_works_with_pod_first() {
    let (mut store, ship, _rock, pod) = world();
    let relocate = collect_air(&mut store, pod, ship, None);
    assert_eq!(relocate, Some(pod));
    assert_eq!(store.get(ship).air(), 1800 + 450);
    assert_eq!(store.get(ship).score, Some(Score(450 + 1000)));
}

#[test]
fn a_tick_collects_once() {
    let (mut store, ship, _rock, pod) = world();
    let first = collect_air(&mut store, ship, pod, None);
    let second = collect_air(&mut store, pod, ship, first);
    assert_eq!(second, Some(pod));
    assert_eq!(store.get(ship).air(), 2250);
    assert_eq!(store.get(ship).score, Some(Score(1450)));
}

#[test]
fn no_collection_without_air() {
    let (mut store, ship, _rock, pod) = world();
    store.get_mut(pod).air_supply = None;
    let relocate = collect_air(&mut store, ship, pod, None);
    assert_eq!(relocate, None);
    assert_eq!(store.get(ship).air(), 1800);
    assert_eq!(store.get(ship).score, Some(Score(0)));
}

#[test]
fn one_tick_without_input() {
    // one craft, one pod, no key held: the craft is not steered, both lose
    // one unit of air, and the pod is not collected
    let (mut store, ship, _rock, pod) = world();
    let input = InputManager::new();
    let cmd = update_player_controls(&input, store.get(ship).air());
    assert_eq!(cmd, ControlCommand { turn: Turn::Straight, thrust: false });
    check_air(&mut store);
    assert_eq!(store.get(ship).air(), SHIP_AIR - 1);
    assert_eq!(store.get(pod).air(), AIR_POD_AIR - 1);
    assert_eq!(store.get(ship).score, Some(Score(0)));
}

#[test]
fn craft_touching_pod_scores_and_frees_the_pod() {
    let (mut store, ship, _rock, pod) = world();
    let mut relocate = None;
    // the contact may be reported more than once in a tick
    for _ in 0..3 {
        if is_air_pickup(store.get(ship).object_type, store.get(pod).object_type) {
            relocate = collect_air(&mut store, ship, pod, relocate);
        }
    }
    check_air(&mut store);
    assert_eq!(relocate, Some(pod));
    assert_eq!(store.get(ship).score, Some(Score(1450)));
    assert_eq!(store.get(ship).air(), 1800 + 450 - 1);
}

#[test]
fn controls_follow_held_keys() {
    assert_eq!(player_command(5, true, false, false).turn, Turn::Left);
    assert_eq!(player_command(5, false, true, false).turn, Turn::Right);
    assert_eq!(player_command(5, true, true, true), ControlCommand { turn: Turn::Straight, thrust: true });
    assert_eq!(player_command(5, false, false, false), ControlCommand { turn: Turn::Straight, thrust: false });
    let mut input = InputManager::new();
    input.input(Key::KeyA, true);
    input.input(Key::ArrowUp, true);
    assert_eq!(update_player_controls(&input, 1), ControlCommand { turn: Turn::Left, thrust: true });
    input.input(Key::KeyD, true);
    assert_eq!(update_player_controls(&input, 1), ControlCommand { turn: Turn::Straight, thrust: true });
    input.input(Key::KeyA, false);
    input.input(Key::ArrowUp, false);
    input.input(Key::KeyW, true);
    assert_eq!(update_player_controls(&input, 1), ControlCommand { turn: Turn::Right, thrust: true });
}

#[test]
fn out_of_air_ignores_controls() {
    assert_eq!(player_command(0, true, false, true), ControlCommand { turn: Turn::Straight, thrust: false });
    let mut input = InputManager::new();
    input.input(Key::ArrowRight, true);
    input.input(Key::KeyW, true);
    assert_eq!(update_player_controls(&input, 0), ControlCommand { turn: Turn::Straight, thrust: false });
}

#[test]
fn placement_retries_then_gives_up_or_keeps() {
    assert_eq!(placement_step(1, 10, false, false), Placement::Accept);
    assert_eq!(placement_step(3, 10, true, false), Placement::Retry);
    assert_eq!(placement_step(10, 10, true, false), Placement::GiveUp);
    assert_eq!(placement_step(10, 10, true, true), Placement::Retry);
    assert_eq!(placement_step(10, 10, false, false), Placement::Accept);
}
