use space_survival::clock::MICROS_PER_TICK;
use space_survival::control::{ControlCommand, Turn};
use space_survival::entity::EntityId;
use space_survival::input::Key;
use space_survival::object::{is_air_pickup, GameObject, Score, AIR_POD_AIR, SHIP_AIR};
use space_survival::world::GameWorld;

fn scene() -> (GameWorld<u8>, EntityId, EntityId) {
    let mut world = GameWorld::new(42, 25);
    let ship = world.add_object(GameObject::new_ship(1u8), 12, 12);
    world.set_control_object(ship);
    let pod = world.add_object(GameObject::new_air_pod(2u8), 3, 20);
    (world, ship, pod)
}

#[test]
fn new_world_is_empty() {
    let world: GameWorld<u8> = GameWorld::new(42, 25);
    assert_eq!(world.get_seed(), 42);
    assert_eq!(world.sequence(), 0);
    assert_eq!(world.get_entities().len(), 0);
    assert_eq!(world.get_spatial_db().get_dim(), 25);
    assert_eq!(world.get_control_object(), None);
    assert!(!world.is_exit_ready());
    assert!(world.ready_for_redraw());
}

#[test]
fn sequence_numbers_count_up() {
    let mut world: GameWorld<u8> = GameWorld::new(7, 4);
    assert_eq!(world.get_sequence(), 1);
    assert_eq!(world.get_sequence(), 2);
    assert_eq!(world.sequence(), 2);
}

#[test]
fn added_objects_sit_in_their_cells() {
    let (world, ship, pod) = scene();
    assert_eq!(world.get_entities().get(ship).spatial_db_ref.spatial_id.0, 12 + 12 * 25);
    assert_eq!(world.get_entities().get(pod).spatial_db_ref.spatial_id.0, 3 + 20 * 25);
    assert_eq!(world.get_spatial_db().probe_range(12, 12, 12, 12), vec![ship]);
    assert_eq!(world.get_spatial_db().probe_range(0, 24, 0, 24).len(), 2);
}

#[test]
fn moving_an_object_moves_it_in_the_grid() {
    let (mut world, ship, _pod) = scene();
    world.move_object(ship, 13, 11);
    assert!(world.get_spatial_db().probe_range(12, 12, 12, 12).is_empty());
    assert_eq!(world.get_spatial_db().probe_range(13, 13, 11, 11), vec![ship]);
    *world.body_mut(ship) = 9;
    assert_eq!(world.get_entities().get(ship).body, 9);
}

#[test]
fn one_tick_of_the_world_without_input() {
    let (mut world, ship, pod) = scene();
    let ticks = world.update_time(MICROS_PER_TICK as u128);
    assert_eq!(ticks, 1);
    assert_eq!(
        world.player_controls(),
        Some((ship, ControlCommand { turn: Turn::Straight, thrust: false }))
    );
    world.end_tick();
    assert_eq!(world.get_entities().get(ship).air(), SHIP_AIR - 1);
    assert_eq!(world.get_entities().get(pod).air(), AIR_POD_AIR - 1);
    assert_eq!(world.get_entities().get(ship).score, Some(Score(0)));
    assert_eq!(world.get_entities().get(ship).body, 1);
    assert_eq!(world.get_entities().get(pod).body, 2);
}

#[test]
fn held_keys_steer_until_air_runs_out() {
    let (mut world, ship, _pod) = scene();
    world.handle_key_event(Key::ArrowRight, true);
    world.handle_key_event(Key::KeyW, true);
    assert_eq!(
        world.player_controls(),
        Some((ship, ControlCommand { turn: Turn::Right, thrust: true }))
    );
    world.reset_air(ship, 1);
    world.end_tick();
    assert_eq!(
        world.player_controls(),
        Some((ship, ControlCommand { turn: Turn::Straight, thrust: false }))
    );
}

#[test]
fn contact_of_ship_and_pod_is_collected_once_per_tick() {
    let (mut world, ship, pod) = scene();
    let types = (
        world.get_entities().get(ship).object_type,
        world.get_entities().get(pod).object_type,
    );
    assert!(is_air_pickup(types.0, types.1));
    let mut relocate = None;
    for _ in 0..2 {
        relocate = world.collect_air(pod, ship, relocate);
    }
    assert_eq!(relocate, Some(pod));
    assert_eq!(world.get_entities().get(ship).air(), SHIP_AIR + AIR_POD_AIR);
    assert_eq!(world.get_entities().get(ship).score, Some(Score(AIR_POD_AIR + 1000)));
    world.reset_air(pod, 77);
    assert_eq!(world.get_entities().get(pod).air(), 77);
}

#[test]
fn escape_asks_to_exit_and_events_clear_each_tick() {
    let (mut world, _ship, _pod) = scene();
    world.handle_key_event(Key::Escape, true);
    world.check_exit();
    assert!(world.is_exit_ready());
    world.end_tick();
    assert!(!world.get_input().is_make(Key::Escape));
    assert!(world.get_input().is_down(Key::Escape));
}

#[test]
fn catch_up_update_runs_several_ticks() {
    let (mut world, _ship, _pod) = scene();
    assert_eq!(world.update_time(10 * MICROS_PER_TICK as u128 + 5), 10);
    assert_eq!(world.interp_micros(), 5);
    assert_eq!(world.virtual_time(), 10 * MICROS_PER_TICK as u128 + 5);
}
