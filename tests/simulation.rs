use tilesim::components::{
    Animation, AnimationEvent, AnimationEventPosition, MoveAction, Movement, Position, Sprite,
};
use tilesim::dispatch::{Dispatcher, SystemKind, TickError};
use tilesim::entities::create_player;
use tilesim::game::{ticks_due, Simulation};
use tilesim::input::{Buttons, ControllerState};
use tilesim::resources::{
    fill_background, sprite_for_roll, BackgroundMap, EntityMap, TileGrid, EXTENT_CELLS, MAP_EXTENT,
};
use tilesim::components::Tile;
use tilesim::scheduler::{build_order, ScheduleError};
use tilesim::systems::{age_animation, PlayerMovement, ProcessAnimation, ProcessMovement};
use tilesim::world::{Bundle, ComponentKind, Entity, World};

fn mover(world: &mut World, x: i32, y: i32, actions: &[MoveAction], animated: bool) -> Entity {
    let mut movement = Movement::new(false);
    for a in actions {
        movement.move_queue.push_back(*a);
    }
    let mut bundle = Bundle::new();
    bundle.position = Some(Position::new(x, y));
    bundle.movement = Some(movement);
    if animated {
        bundle.animation = Some(Animation::new());
    }
    world.create_entity(bundle)
}

fn queue_of(world: &World, e: Entity) -> Vec<MoveAction> {
    world.movement(e).unwrap().move_queue.iter().copied().collect()
}

fn events_of(world: &World, e: Entity) -> Vec<AnimationEventPosition> {
    world
        .animation(e)
        .unwrap()
        .animation_queue
        .iter()
        .map(|ev| match ev {
            AnimationEvent::Position(p) => *p,
        })
        .collect()
}

#[test]
fn up_step_moves_and_records_animation() {
    let mut world = World::new();
    let e = mover(&mut world, 3, 3, &[MoveAction::Up], true);
    ProcessMovement.run(&mut world, 1000);
    assert_eq!(world.position(e), Some(Position { x: 3, y: 2 }));
    assert!(queue_of(&world, e).is_empty());
    let events = events_of(&world, e);
    assert_eq!(events.len(), 1);
    assert_eq!(events[0].offset, (0, 1));
    assert_eq!(events[0].start, 1000);
    assert_eq!(events[0].end, 1200);
}

#[test]
fn each_direction_has_its_delta_and_offset() {
    let cases = [
        (MoveAction::Up, (5, 4), (0, 1)),
        (MoveAction::Down, (5, 6), (0, -1)),
        (MoveAction::Left, (4, 5), (1, 0)),
        (MoveAction::Right, (6, 5), (-1, 0)),
    ];
    for (action, target, offset) in cases {
        let mut world = World::new();
        let e = mover(&mut world, 5, 5, &[action], true);
        ProcessMovement.run(&mut world, 0);
        assert_eq!(world.position(e), Some(Position { x: target.0, y: target.1 }));
        assert_eq!(events_of(&world, e)[0].offset, offset);
    }
}

#[test]
fn empty_queue_is_skipped() {
    let mut world = World::new();
    let e = mover(&mut world, 3, 3, &[], true);
    ProcessMovement.run(&mut world, 10);
    assert_eq!(world.position(e), Some(Position { x: 3, y: 3 }));
    assert!(events_of(&world, e).is_empty());
}

#[test]
fn queue_of_n_drains_in_n_ticks_to_vector_sum() {
    let mut world = World::new();
    let actions = [
        MoveAction::Up,
        MoveAction::Right,
        MoveAction::Right,
        MoveAction::Down,
        MoveAction::Down,
        MoveAction::Left,
    ];
    let e = mover(&mut world, 0, 0, &actions, false);
    for t in 0..actions.len() {
        assert_eq!(queue_of(&world, e).len(), actions.len() - t);
        ProcessMovement.run(&mut world, t as u64);
    }
    assert!(queue_of(&world, e).is_empty());
    assert_eq!(world.position(e), Some(Position { x: 1, y: 1 }));
    ProcessMovement.run(&mut world, 99);
    assert_eq!(world.position(e), Some(Position { x: 1, y: 1 }));
}

#[test]
fn movement_without_animation_still_moves() {
    let mut world = World::new();
    let e = mover(&mut world, 3, 3, &[MoveAction::Left], false);
    ProcessMovement.run(&mut world, 0);
    assert_eq!(world.position(e), Some(Position { x: 2, y: 3 }));
    assert!(world.animation(e).is_none());
}

#[test]
fn up_and_right_pressed_enqueue_only_up() {
    let mut world = World::new();
    let player = create_player(&mut world, 3, 3);
    let mut controller = ControllerState::new();
    controller.button_down(Buttons::Up);
    controller.button_down(Buttons::Right);
    PlayerMovement.run(&mut world, &controller);
    assert_eq!(queue_of(&world, player), vec![MoveAction::Up]);
}

#[test]
fn intent_priority_order() {
    let presses = [
        (vec![Buttons::Right, Buttons::Left], MoveAction::Left),
        (vec![Buttons::Left, Buttons::Down], MoveAction::Down),
        (vec![Buttons::Right], MoveAction::Right),
        (vec![Buttons::Right, Buttons::Down, Buttons::Up, Buttons::Left], MoveAction::Up),
    ];
    for (buttons, expected) in presses {
        let mut world = World::new();
        let player = create_player(&mut world, 0, 0);
        let mut controller = ControllerState::new();
        for b in buttons {
            controller.button_down(b);
        }
        PlayerMovement.run(&mut world, &controller);
        assert_eq!(queue_of(&world, player), vec![expected]);
    }
}

#[test]
fn intent_ignores_unowned_held_and_action() {
    let mut world = World::new();
    let other = mover(&mut world, 0, 0, &[], false);
    let player = create_player(&mut world, 1, 1);
    let mut controller = ControllerState::new();
    controller.button_down(Buttons::Action);
    PlayerMovement.run(&mut world, &controller);
    assert!(queue_of(&world, player).is_empty());
    controller.button_down(Buttons::Down);
    PlayerMovement.run(&mut world, &controller);
    assert!(queue_of(&world, other).is_empty());
    assert_eq!(queue_of(&world, player), vec![MoveAction::Down]);
    controller.update();
    assert!(controller.get_button_down(Buttons::Down));
    assert!(!controller.get_button_pressed(Buttons::Down));
    PlayerMovement.run(&mut world, &controller);
    assert_eq!(queue_of(&world, player), vec![MoveAction::Down]);
}

#[test]
fn controller_press_hold_release() {
    let mut c = ControllerState::new();
    c.button_down(Buttons::Left);
    assert!(c.get_button_down(Buttons::Left));
    assert!(c.get_button_pressed(Buttons::Left));
    c.update();
    c.button_down(Buttons::Left);
    assert!(!c.get_button_pressed(Buttons::Left));
    c.button_up(Buttons::Left);
    assert!(!c.get_button_down(Buttons::Left));
    c.button_down(Buttons::Left);
    assert!(c.get_button_pressed(Buttons::Left));
}

#[test]
fn animation_event_kept_until_end() {
    let mut anim = Animation::new();
    anim.animation_queue.push_back(AnimationEvent::Position(AnimationEventPosition {
        offset: (0, 1),
        start: 1000,
        end: 1200,
    }));
    age_animation(&mut anim, 1000);
    assert_eq!(anim.animation_queue.len(), 1);
    age_animation(&mut anim, 1199);
    assert_eq!(anim.animation_queue.len(), 1);
    age_animation(&mut anim, 1200);
    assert_eq!(anim.animation_queue.len(), 0);
}

#[test]
fn aging_removes_one_event_per_tick() {
    let mut world = World::new();
    let e = mover(&mut world, 0, 0, &[MoveAction::Up, MoveAction::Up, MoveAction::Up], true);
    ProcessMovement.run(&mut world, 0);
    ProcessMovement.run(&mut world, 10);
    ProcessMovement.run(&mut world, 20);
    assert_eq!(events_of(&world, e).len(), 3);
    ProcessAnimation.run(&mut world, 199);
    assert_eq!(events_of(&world, e).len(), 3);
    ProcessAnimation.run(&mut world, 5000);
    assert_eq!(events_of(&world, e).len(), 2);
    assert_eq!(events_of(&world, e)[0].start, 10);
    ProcessAnimation.run(&mut world, 5000);
    ProcessAnimation.run(&mut world, 5000);
    assert!(events_of(&world, e).is_empty());
    ProcessAnimation.run(&mut world, 5000);
    assert!(events_of(&world, e).is_empty());
}

#[test]
fn background_covers_extent_with_known_sprites() {
    let mut map = BackgroundMap::new();
    assert_eq!(map.tiles.len(), 0);
    map.generate();
    assert_eq!(map.tiles.len(), 16384);
    for x in 0..MAP_EXTENT {
        for y in 0..MAP_EXTENT {
            let t = map.tiles.get(x, y).unwrap();
            assert_eq!(t.sprite_layer, 0);
            assert!([0, 1, 2, 3, 4].contains(&t.sprite_id));
        }
    }
    assert!(map.tiles.get(MAP_EXTENT, 0).is_none());
    assert!(map.tiles.get(-1, 5).is_none());
    map.generate();
    assert_eq!(map.tiles.len(), 16384);
}

#[test]
fn roll_to_sprite_table() {
    let table = [
        (1, 1),
        (2, 1),
        (3, 1),
        (4, 4),
        (5, 4),
        (6, 4),
        (7, 0),
        (50, 0),
        (97, 0),
        (98, 2),
        (99, 2),
        (100, 3),
    ];
    for (roll, sprite) in table {
        assert_eq!(sprite_for_roll(roll), sprite);
    }
}

#[test]
fn tile_grid_overwrites_per_coordinate() {
    let mut grid = TileGrid::new();
    grid.insert(1, 2, Tile { sprite_layer: 0, sprite_id: 1 });
    grid.insert(2, 1, Tile { sprite_layer: 1, sprite_id: 7 });
    grid.insert(1, 2, Tile { sprite_layer: 0, sprite_id: 3 });
    assert_eq!(grid.len(), 2);
    assert_eq!(grid.get(1, 2), Some(Tile { sprite_layer: 0, sprite_id: 3 }));
    assert_eq!(grid.get(2, 1), Some(Tile { sprite_layer: 1, sprite_id: 7 }));
    assert_eq!(grid.get(2, 2), None);
    let entity_map = EntityMap::new();
    assert_eq!(entity_map.tiles.len(), 0);
}

#[test]
fn destroyed_entity_leaves_every_query() {
    let mut world = World::new();
    let a = mover(&mut world, 0, 0, &[], true);
    let b = create_player(&mut world, 1, 1);
    let c = mover(&mut world, 2, 2, &[], false);
    let kinds = vec![ComponentKind::Movement, ComponentKind::Position];
    assert_eq!(world.join(&kinds), vec![a, b, c]);
    world.destroy_entity(b);
    assert!(!world.is_alive(b));
    assert_eq!(world.join(&kinds), vec![a, c]);
    assert_eq!(world.join(&vec![ComponentKind::Sprite]), vec![]);
    for k in [
        ComponentKind::Position,
        ComponentKind::Movement,
        ComponentKind::Sprite,
        ComponentKind::Animation,
        ComponentKind::Player,
        ComponentKind::Solid,
        ComponentKind::Plantae,
    ] {
        assert!(!world.has_component(b, k));
    }
    assert_eq!(world.position(b), None);
    let d = create_player(&mut world, 4, 4);
    assert_ne!(d, b);
    assert_eq!(world.entity_count(), 4);
    assert_eq!(world.join(&vec![ComponentKind::Animation]), vec![a]);
    assert_eq!(world.join(&vec![]), vec![a, c, d]);
}

#[test]
fn player_archetype() {
    let mut world = World::new();
    let p = create_player(&mut world, 3, 3);
    assert_eq!(world.position(p), Some(Position { x: 3, y: 3 }));
    assert_eq!(world.sprite(p), Some(Sprite::new(1, 5)));
    let m = world.movement(p).unwrap();
    assert!(m.player_owned);
    assert!(m.move_queue.is_empty());
    assert!(!world.has_component(p, ComponentKind::Animation));
}

#[test]
fn dependency_cycle_rejected() {
    let r = Dispatcher::new(
        vec![SystemKind::PlayerMovement, SystemKind::ProcessMovement],
        &vec![vec![1], vec![0]],
    );
    assert_eq!(r.err(), Some(ScheduleError::Cycle));
    assert_eq!(build_order(&vec![vec![0]]), Err(ScheduleError::Cycle));
}

#[test]
fn unknown_dependency_rejected() {
    assert_eq!(build_order(&vec![vec![], vec![2]]), Err(ScheduleError::UnknownDependency));
}

#[test]
fn order_respects_dependencies() {
    let deps = vec![vec![2], vec![], vec![1], vec![0, 1]];
    let order = build_order(&deps).unwrap();
    assert_eq!(order.len(), 4);
    let pos = |s: usize| order.iter().position(|&x| x == s).unwrap();
    assert!(pos(1) < pos(2));
    assert!(pos(2) < pos(0));
    assert!(pos(0) < pos(3));
    let standard = build_order(&vec![vec![], vec![], vec![1], vec![]]).unwrap();
    let p = |s: usize| standard.iter().position(|&x| x == s).unwrap();
    assert!(p(1) < p(2));
    assert!(Dispatcher::standard().is_ok());
}

#[test]
fn tick_moves_player_and_clears_presses() {
    let mut sim = Simulation::new().unwrap();
    assert_eq!(sim.background_map.tiles.len(), 16384);
    sim.controller.button_down(Buttons::Up);
    assert_eq!(sim.tick(0), Ok(()));
    assert_eq!(sim.world.position(sim.player), Some(Position { x: 3, y: 2 }));
    assert!(!sim.controller.get_button_pressed(Buttons::Up));
    assert_eq!(sim.tick(16), Ok(()));
    assert_eq!(sim.world.position(sim.player), Some(Position { x: 3, y: 2 }));
}

#[test]
fn tick_stops_on_out_of_range_step_and_clock() {
    let mut world = World::new();
    let mut entity_map = EntityMap::new();
    let controller = ControllerState::new();
    let mut dispatcher = Dispatcher::standard().unwrap();
    let e = mover(&mut world, 0, i32::MIN, &[MoveAction::Up], false);
    assert_eq!(
        dispatcher.dispatch(&mut world, &mut entity_map, &controller, 0),
        Err(TickError::StepOutOfRange)
    );
    assert_eq!(world.position(e), Some(Position { x: 0, y: i32::MIN }));
    assert_eq!(
        dispatcher.dispatch(&mut world, &mut entity_map, &controller, u64::MAX),
        Err(TickError::ClockOutOfRange)
    );
}

#[test]
fn in_flight_selects_events_whose_window_holds_now() {
    let mut anim = Animation::new();
    for (offset, start, end) in [((0, 1), 1000u64, 1200u64), ((1, 0), 1100, 1300), ((-1, 0), 1300, 1500)] {
        anim.animation_queue.push_back(AnimationEvent::Position(AnimationEventPosition { offset, start, end }));
    }
    let at = anim.in_flight(1150);
    assert_eq!(at.len(), 2);
    assert_eq!((at[0].offset_x, at[0].offset_y, at[0].remaining, at[0].total), (0, 1, 50, 200));
    assert_eq!((at[1].offset_x, at[1].offset_y, at[1].remaining, at[1].total), (1, 0, 150, 200));
    assert_eq!(anim.in_flight(1200).len(), 1);
    assert_eq!(anim.in_flight(999).len(), 0);
    assert_eq!(anim.in_flight(1500).len(), 0);
    let start = anim.in_flight(1300);
    assert_eq!((start[0].offset_x, start[0].remaining, start[0].total), (-1, 200, 200));
}

#[test]
fn background_tile_follows_its_roll() {
    let mut rolls = vec![50u32; EXTENT_CELLS];
    rolls[0] = 2;
    rolls[1] = 5;
    rolls[128] = 98;
    rolls[128 * 127 + 127] = 100;
    let grid = fill_background(&rolls);
    assert_eq!(grid.len(), 16384);
    assert_eq!(grid.get(0, 0), Some(Tile { sprite_layer: 0, sprite_id: 1 }));
    assert_eq!(grid.get(0, 1), Some(Tile { sprite_layer: 0, sprite_id: 4 }));
    assert_eq!(grid.get(1, 0), Some(Tile { sprite_layer: 0, sprite_id: 2 }));
    assert_eq!(grid.get(127, 127), Some(Tile { sprite_layer: 0, sprite_id: 3 }));
    assert_eq!(grid.get(64, 3), Some(Tile { sprite_layer: 0, sprite_id: 0 }));
}

#[test]
fn due_tick_count() {
    assert_eq!(ticks_due(100, 99, 16), 0);
    assert_eq!(ticks_due(100, 100, 16), 1);
    assert_eq!(ticks_due(100, 115, 16), 1);
    assert_eq!(ticks_due(100, 116, 16), 2);
    assert_eq!(ticks_due(0, 1000, 16), 63);
    assert_eq!(ticks_due(0, u64::MAX, 1), u64::MAX);
}

#[test]
fn run_ticks_runs_every_due_tick() {
    let mut sim = Simulation::new().unwrap();
    let player = sim.player;
    assert_eq!(sim.run_ticks(0, 16, 0), Ok(()));
    assert_eq!(sim.world.position(player), Some(Position { x: 3, y: 3 }));
    sim.controller.button_down(Buttons::Right);
    assert_eq!(sim.run_ticks(0, 16, 3), Ok(()));
    assert_eq!(sim.world.position(player), Some(Position { x: 4, y: 3 }));
    assert!(!sim.controller.get_button_pressed(Buttons::Right));
    assert!(sim.controller.get_button_down(Buttons::Right));
}

#[test]
fn simulation_tick_clock_error() {
    let mut sim = Simulation::new().unwrap();
    sim.controller.button_down(Buttons::Up);
    assert_eq!(sim.tick(u64::MAX - 100), Err(TickError::ClockOutOfRange));
    assert!(sim.controller.get_button_pressed(Buttons::Up));
    assert_eq!(sim.run_ticks(u64::MAX - 250, 100, 2), Err(TickError::ClockOutOfRange));
    assert_eq!(sim.world.position(sim.player), Some(Position { x: 3, y: 2 }));
}

#[test]
fn simulation_setup() {
    let sim = Simulation::new().unwrap();
    assert_eq!(sim.world.entity_count(), 1);
    assert_eq!(sim.world.sprite(sim.player), Some(Sprite::new(1, 5)));
    assert!(sim.world.movement(sim.player).unwrap().player_owned);
    assert_eq!(sim.entity_map.tiles.len(), 0);
    assert_eq!(sim.background_map.tiles.len(), 16384);
}
