use cgmath::{InnerSpace, Vector3};
use rand::rngs::StdRng;
use rand::SeedableRng;
use steering::entity::{
    Behavior, Light, SpaceshipState, CHASE_STOP_DISTANCE, FLEE_DISTANCE,
};
use steering::state::{LightAction, State};

type Scene = State<Vector3<f32>, Vector3<f32>>;

fn scene_with(ids: &[u16]) -> Scene {
    let mut scene = State::new(Light::new(Vector3::new(0.0, 0.0, 0.0)));
    for id in ids {
        scene.add_cube(*id, Vector3::new(f32::from(*id), 0.0, 0.0));
    }
    scene
}

fn sorted(mut ids: Vec<u16>) -> Vec<u16> {
    ids.sort();
    ids
}

#[test]
fn new_scene_has_no_mover() {
    let scene = scene_with(&[]);
    assert_eq!(scene.len(), 0);
    assert_eq!(scene.ids(), Vec::<u16>::new());
    assert!(scene.cube(1).is_none());
    assert_eq!(scene.light().chase_target_id, None);
    assert_eq!(scene.light().body, Vector3::new(0.0, 0.0, 0.0));
}

#[test]
fn add_cube_registers_an_idle_mover() {
    let mut scene = scene_with(&[]);
    scene.add_cube(4, Vector3::new(-3.0, 0.0, 0.0));
    assert_eq!(scene.len(), 1);
    let cube = scene.cube(4).unwrap();
    assert_eq!(cube.id, 4);
    assert_eq!(cube.body, Vector3::new(-3.0, 0.0, 0.0));
    assert_eq!(cube.state, SpaceshipState::Idle);
    assert!(scene.cube(5).is_none());
}

#[test]
fn add_cube_with_a_used_id_overwrites() {
    let mut scene = scene_with(&[1, 2]);
    assert_eq!(scene.cube_action(1, true), Some(Behavior::Flee));
    scene.add_cube(1, Vector3::new(9.0, 9.0, 9.0));
    assert_eq!(scene.len(), 2);
    let cube = scene.cube(1).unwrap();
    assert_eq!(cube.body, Vector3::new(9.0, 9.0, 9.0));
    assert_eq!(cube.state, SpaceshipState::Idle);
    assert_eq!(scene.cube(2).unwrap().body, Vector3::new(2.0, 0.0, 0.0));
}

#[test]
fn contains_tells_registered_ids_apart() {
    let scene = scene_with(&[1, 3]);
    assert!(scene.contains(1));
    assert!(!scene.contains(2));
    assert!(scene.contains(3));
}

#[test]
fn ids_lists_every_mover_once() {
    let scene = scene_with(&[3, 1, 2, 3, 1]);
    assert_eq!(sorted(scene.ids()), vec![1, 2, 3]);
    assert_eq!(scene.len(), 3);
}

#[test]
fn other_ids_leaves_out_the_given_one() {
    let scene = scene_with(&[1, 2, 3, 4]);
    assert_eq!(sorted(scene.other_ids(3)), vec![1, 2, 4]);
    assert_eq!(sorted(scene.other_ids(9)), vec![1, 2, 3, 4]);
    let alone = scene_with(&[5]);
    assert_eq!(alone.other_ids(5), Vec::<u16>::new());
}

#[test]
fn light_without_target_adopts_a_registered_mover() {
    let mut scene = scene_with(&[1, 2, 3]);
    assert_eq!(scene.light().chase_target_id, None);
    let action = scene.light_action();
    assert_eq!(action, LightAction::Rest);
    let target = scene.light().chase_target_id;
    assert!(matches!(target, Some(1) | Some(2) | Some(3)));
    assert_eq!(scene.light().body, Vector3::new(0.0, 0.0, 0.0));
}

#[test]
fn light_adopts_the_same_mover_from_the_same_table() {
    let mut scene = scene_with(&[1, 2, 3]);
    scene.light_action();
    let first = scene.light().chase_target_id;
    scene.set_chase_target(None);
    scene.light_action();
    assert_eq!(scene.light().chase_target_id, first);
}

#[test]
fn light_without_movers_stays_without_target() {
    let mut scene = scene_with(&[]);
    assert_eq!(scene.light_action(), LightAction::Rest);
    assert_eq!(scene.light().chase_target_id, None);
}

#[test]
fn light_chases_a_target_that_resolves() {
    let mut scene = scene_with(&[1, 2, 3]);
    scene.set_chase_target(Some(2));
    assert_eq!(scene.light_action(), LightAction::Chase(2));
    assert_eq!(scene.light().chase_target_id, Some(2));
    assert_eq!(scene.light_action(), LightAction::Chase(2));
}

#[test]
fn light_drops_a_target_that_is_gone() {
    let mut scene = scene_with(&[1, 2]);
    scene.set_chase_target(Some(8));
    assert_eq!(scene.light_action(), LightAction::Rest);
    assert_eq!(scene.light().chase_target_id, None);

    assert_eq!(scene.light_action(), LightAction::Rest);
    assert!(matches!(scene.light().chase_target_id, Some(1) | Some(2)));
    let target = scene.light().chase_target_id.unwrap();
    assert_eq!(scene.light_action(), LightAction::Chase(target));
}

#[test]
fn chase_that_has_not_arrived_keeps_its_target() {
    let mut rng = StdRng::seed_from_u64(1);
    let mut scene = scene_with(&[1, 2, 3]);
    scene.set_chase_target(Some(1));
    scene.chase_outcome(false, &mut rng);
    assert_eq!(scene.light().chase_target_id, Some(1));
}

#[test]
fn chase_that_arrived_turns_to_the_only_other_mover() {
    for seed in 0..32 {
        let mut rng = StdRng::seed_from_u64(seed);
        let mut scene = scene_with(&[10, 20]);
        scene.set_chase_target(Some(10));
        assert_eq!(scene.light_action(), LightAction::Chase(10));
        scene.chase_outcome(true, &mut rng);
        assert_eq!(scene.light().chase_target_id, Some(20));
    }
}

#[test]
fn chase_that_arrived_with_no_other_mover_has_no_target() {
    let mut rng = StdRng::seed_from_u64(3);
    let mut scene = scene_with(&[10]);
    scene.set_chase_target(Some(10));
    assert_eq!(scene.light_action(), LightAction::Chase(10));
    scene.chase_outcome(true, &mut rng);
    assert_eq!(scene.light().chase_target_id, None);

    assert_eq!(scene.light_action(), LightAction::Rest);
    assert_eq!(scene.light().chase_target_id, Some(10));
}

#[test]
fn chase_that_arrived_never_keeps_the_mover_it_reached() {
    for seed in 0..64 {
        let mut rng = StdRng::seed_from_u64(seed);
        let mut scene = scene_with(&[1, 2, 3, 4]);
        scene.set_chase_target(Some(3));
        scene.chase_outcome(true, &mut rng);
        let next = scene.light().chase_target_id;
        assert!(matches!(next, Some(1) | Some(2) | Some(4)));
    }
}

#[test]
fn chase_that_arrived_can_turn_to_each_other_mover() {
    let mut seen = [false; 5];
    for seed in 0..200 {
        let mut rng = StdRng::seed_from_u64(seed);
        let mut scene = scene_with(&[1, 2, 3, 4]);
        scene.set_chase_target(Some(3));
        scene.chase_outcome(true, &mut rng);
        seen[usize::from(scene.light().chase_target_id.unwrap())] = true;
    }
    assert_eq!(seen, [false, true, true, false, true]);
}

#[test]
fn chase_outcome_without_target_changes_nothing() {
    let mut rng = StdRng::seed_from_u64(5);
    let mut scene = scene_with(&[1, 2]);
    scene.chase_outcome(true, &mut rng);
    assert_eq!(scene.light().chase_target_id, None);
    assert_eq!(scene.len(), 2);
}

#[test]
fn chase_outcome_leaves_the_movers_alone() {
    let mut rng = StdRng::seed_from_u64(11);
    let mut scene = scene_with(&[1, 2, 3]);
    scene.cube_action(2, true);
    scene.set_chase_target(Some(1));
    scene.chase_outcome(true, &mut rng);
    assert_eq!(sorted(scene.ids()), vec![1, 2, 3]);
    assert_eq!(scene.cube(2).unwrap().state, SpaceshipState::Fleeing);
    assert_eq!(scene.cube(2).unwrap().body, Vector3::new(2.0, 0.0, 0.0));
    assert_eq!(scene.light().body, Vector3::new(0.0, 0.0, 0.0));
}

#[test]
fn near_mover_flees_and_far_mover_stops() {
    let mut scene = scene_with(&[1, 2]);
    assert_eq!(scene.cube_action(1, true), Some(Behavior::Flee));
    assert_eq!(scene.cube(1).unwrap().state, SpaceshipState::Fleeing);
    assert_eq!(scene.cube_action(2, false), Some(Behavior::Stop));
    assert_eq!(scene.cube(2).unwrap().state, SpaceshipState::Idle);

    assert_eq!(scene.cube_action(1, false), Some(Behavior::Stop));
    assert_eq!(scene.cube(1).unwrap().state, SpaceshipState::Idle);
    assert_eq!(scene.cube(1).unwrap().id, 1);
    assert_eq!(scene.cube(1).unwrap().body, Vector3::new(1.0, 0.0, 0.0));
}

#[test]
fn cube_action_on_an_unknown_id_does_nothing() {
    let mut scene = scene_with(&[1]);
    assert_eq!(scene.cube_action(2, true), None);
    assert_eq!(scene.len(), 1);
    assert_eq!(scene.cube(1).unwrap().state, SpaceshipState::Idle);
}

#[test]
fn mover_state_follows_the_distance_to_the_light() {
    let mut scene: Scene = State::new(Light::new(Vector3::new(10.0, 0.0, 0.0)));
    scene.add_cube(1, Vector3::new(0.0, 0.0, 0.0));
    let threshold = f32::from(FLEE_DISTANCE);

    let distance = (scene.cube(1).unwrap().body - scene.light().body).magnitude();
    assert_eq!(scene.cube_action(1, distance < threshold), Some(Behavior::Stop));
    assert_eq!(scene.cube(1).unwrap().state, SpaceshipState::Idle);

    scene.set_light_body(Vector3::new(4.0, 0.0, 0.0));
    let distance = (scene.cube(1).unwrap().body - scene.light().body).magnitude();
    assert_eq!(scene.cube_action(1, distance < threshold), Some(Behavior::Flee));
    assert_eq!(scene.cube(1).unwrap().state, SpaceshipState::Fleeing);
}

#[test]
fn set_cube_body_keeps_id_and_state() {
    let mut scene = scene_with(&[1, 2]);
    scene.cube_action(1, true);
    assert!(scene.set_cube_body(1, Vector3::new(0.5, 0.5, 0.5)));
    let cube = scene.cube(1).unwrap();
    assert_eq!(cube.id, 1);
    assert_eq!(cube.body, Vector3::new(0.5, 0.5, 0.5));
    assert_eq!(cube.state, SpaceshipState::Fleeing);
    assert_eq!(scene.cube(2).unwrap().body, Vector3::new(2.0, 0.0, 0.0));

    assert!(!scene.set_cube_body(3, Vector3::new(1.0, 1.0, 1.0)));
    assert_eq!(scene.len(), 2);
    assert!(scene.cube(3).is_none());
}

#[test]
fn set_light_body_keeps_the_target() {
    let mut scene = scene_with(&[1]);
    scene.set_chase_target(Some(1));
    scene.set_light_body(Vector3::new(1.0, 2.0, 3.0));
    assert_eq!(scene.light().body, Vector3::new(1.0, 2.0, 3.0));
    assert_eq!(scene.light().chase_target_id, Some(1));
}

#[test]
fn a_chase_runs_from_adoption_to_the_next_target() {
    let mut rng = StdRng::seed_from_u64(2021);
    let mut scene: Scene = State::new(Light::new(Vector3::new(0.0, 0.0, 0.0)));
    scene.add_cube(1, Vector3::new(0.0, 3.0, 0.0));
    scene.add_cube(2, Vector3::new(0.0, -3.0, 0.0));
    let stop = f32::from(CHASE_STOP_DISTANCE);

    assert_eq!(scene.light_action(), LightAction::Rest);
    let first = scene.light().chase_target_id.unwrap();
    let second = if first == 1 { 2 } else { 1 };

    assert_eq!(scene.light_action(), LightAction::Chase(first));
    let target = scene.cube(first).unwrap().body;
    scene.set_light_body(target * 0.25);
    let distance = (scene.light().body - target).magnitude();
    scene.chase_outcome(distance < stop, &mut rng);
    assert_eq!(scene.light().chase_target_id, Some(first));

    assert_eq!(scene.light_action(), LightAction::Chase(first));
    scene.set_light_body(target * 0.5);
    let distance = (scene.light().body - target).magnitude();
    scene.chase_outcome(distance < stop, &mut rng);
    assert_eq!(scene.light().chase_target_id, Some(second));
    assert_eq!(scene.light_action(), LightAction::Chase(second));
}
