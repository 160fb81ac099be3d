//! The per-tick systems: intent capture, movement resolution, animation aging
//! and the growth placeholder, with the step each applies to one entity.
use crate::components::{
    action_delta, action_target, sum_deltas, Animation, AnimationEvent, AnimationEventPosition,
    MoveAction, Movement, Position, MOVE_TRANSITION_MILLIS,
};
use crate::input::{Buttons, ControllerState};
use crate::resources::EntityMap;
use crate::world::World;
use vstd::prelude::*;

verus! {

/// The action that the pressed buttons ask for, by priority Up > Down > Left > Right.
pub open spec fn intent(c: ControllerState) -> Option<MoveAction> {
    if c.pressed.up {
        Some(MoveAction::Up)
    } else if c.pressed.down {
        Some(MoveAction::Down)
    } else if c.pressed.left {
        Some(MoveAction::Left)
    } else if c.pressed.right {
        Some(MoveAction::Right)
    } else {
        None
    }
}

/// What intent capture appends to a movement queue.
pub open spec fn appended_intent(player_owned: bool, c: ControllerState) -> Seq<MoveAction> {
    if player_owned {
        match intent(c) {
            Some(a) => seq![a],
            None => Seq::empty(),
        }
    } else {
        Seq::empty()
    }
}

/// The action asked for this tick, if any.
pub fn intent_of(controller: &ControllerState) -> (r: Option<MoveAction>)
    ensures
        r == intent(*controller),
{
    if controller.get_button_pressed(Buttons::Up) {
        Some(MoveAction::Up)
    } else if controller.get_button_pressed(Buttons::Down) {
        Some(MoveAction::Down)
    } else if controller.get_button_pressed(Buttons::Left) {
        Some(MoveAction::Left)
    } else if controller.get_button_pressed(Buttons::Right) {
        Some(MoveAction::Right)
    } else {
        None
    }
}

/// However many directions are pressed in one tick, intent capture appends at
/// most one action, and Up wins over every other direction.
pub proof fn lemma_one_action_per_tick(player_owned: bool, c: ControllerState)
    ensures
        appended_intent(player_owned, c).len() <= 1,
        player_owned && c.pressed.up ==> appended_intent(player_owned, c) == seq![MoveAction::Up],
{
}

/// Appends at most one action to a player-owned entity's queue.
pub fn capture_intent(controller: &ControllerState, movement: &mut Movement)
    ensures
        final(movement).player_owned == old(movement).player_owned,
        final(movement).move_queue@ == old(movement).move_queue@ + appended_intent(
            old(movement).player_owned,
            *controller,
        ),
        final(movement).move_queue@.len() <= old(movement).move_queue@.len() + 1,
{
    if movement.player_owned {
        match intent_of(controller) {
            Some(a) => {
                movement.move_queue.push_back(a);
            },
            None => {
                assert(movement.move_queue@ =~= movement.move_queue@ + Seq::<MoveAction>::empty());
            },
        }
    } else {
        assert(movement.move_queue@ =~= movement.move_queue@ + Seq::<MoveAction>::empty());
    }
}

/// One resolution step on a queue and a coordinate: the front action, if any,
/// is removed and applied.
pub open spec fn resolve_step(q: Seq<MoveAction>, x: int, y: int) -> (Seq<MoveAction>, int, int) {
    if q.len() == 0 {
        (q, x, y)
    } else {
        let t = action_target(x, y, q[0]);
        (q.drop_first(), t.0, t.1)
    }
}

/// `n` resolution steps in a row.
pub open spec fn resolve_steps(q: Seq<MoveAction>, x: int, y: int, n: nat) -> (
    Seq<MoveAction>,
    int,
    int,
)
    decreases n,
{
    if n == 0 {
        (q, x, y)
    } else {
        let s = resolve_step(q, x, y);
        resolve_steps(s.0, s.1, s.2, (n - 1) as nat)
    }
}

/// Resolving a queue of `N` actions `N` times empties it and moves the
/// coordinate by the vector sum of the actions' deltas.
pub proof fn lemma_resolution_drains_queue(q: Seq<MoveAction>, x: int, y: int)
    ensures
        resolve_steps(q, x, y, q.len()) == (Seq::<MoveAction>::empty(), x + sum_deltas(q).0, y
            + sum_deltas(q).1),
    decreases q.len(),
{
    if q.len() == 0 {
        assert(q =~= Seq::<MoveAction>::empty());
    } else {
        let d = action_delta(q[0]);
        lemma_resolution_drains_queue(q.drop_first(), x + d.0, y + d.1);
    }
}

/// `n + 1` steps are `n` steps followed by one more.
pub proof fn lemma_resolve_steps_last(q: Seq<MoveAction>, x: int, y: int, n: nat)
    ensures
        resolve_steps(q, x, y, n + 1) == resolve_step(
            resolve_steps(q, x, y, n).0,
            resolve_steps(q, x, y, n).1,
            resolve_steps(q, x, y, n).2,
        ),
    decreases n,
{
    let s = resolve_step(q, x, y);
    assert(resolve_steps(q, x, y, n + 1) == resolve_steps(s.0, s.1, s.2, n));
    if n > 0 {
        assert(resolve_steps(q, x, y, n) == resolve_steps(s.0, s.1, s.2, (n - 1) as nat));
        lemma_resolve_steps_last(s.0, s.1, s.2, (n - 1) as nat);
    } else {
        assert(resolve_steps(s.0, s.1, s.2, 0) == s);
    }
}

/// The coordinate lies in the range of `i32`.
pub open spec fn fits_i32(p: (int, int)) -> bool {
    i32::MIN <= p.0 <= i32::MAX && i32::MIN <= p.1 <= i32::MAX
}

/// The next resolution step keeps the coordinate in the range of `i32`.
pub open spec fn step_fits(q: Seq<MoveAction>, p: Position) -> bool {
    q.len() > 0 ==> fits_i32(action_target(p.x as int, p.y as int, q[0]))
}

/// The animation event that a step from `p` by `a` starting at `now` records:
/// its offset is the old coordinate minus the new one.
pub open spec fn step_event(p: Position, a: MoveAction, now: u64) -> AnimationEventPosition {
    AnimationEventPosition {
        offset: ((-action_delta(a).0) as i32, (-action_delta(a).1) as i32),
        start: now,
        end: (now + MOVE_TRANSITION_MILLIS) as u64,
    }
}

/// Applies the front action of the queue, if any, and returns the animation
/// event that records the step.
pub fn resolve_movement(movement: &mut Movement, position: &mut Position, now: u64) -> (r: Option<
    AnimationEventPosition,
>)
    requires
        now <= u64::MAX - MOVE_TRANSITION_MILLIS,
        step_fits(old(movement).move_queue@, *old(position)),
    ensures
        final(movement).player_owned == old(movement).player_owned,
        ({
            let s = resolve_step(old(movement).move_queue@, old(position).x as int, old(position).y as int);
            final(movement).move_queue@ == s.0 && final(position).x == s.1 && final(position).y == s.2
        }),
        old(movement).move_queue@.len() == 0 ==> r.is_none(),
        old(movement).move_queue@.len() > 0 ==> r == Some(
            step_event(*old(position), old(movement).move_queue@[0], now),
        ),
{
    if movement.move_queue.len() == 0 {
        return None;
    }
    let action = movement.move_queue[0];
    let (target_x, target_y) = match action {
        MoveAction::Up => (position.x, position.y - 1),
        MoveAction::Down => (position.x, position.y + 1),
        MoveAction::Left => (position.x - 1, position.y),
        MoveAction::Right => (position.x + 1, position.y),
    };
    movement.move_queue.pop_front();
    let event = AnimationEventPosition {
        offset: (position.x - target_x, position.y - target_y),
        start: now,
        end: now + MOVE_TRANSITION_MILLIS,
    };
    position.x = target_x;
    position.y = target_y;
    assert(movement.move_queue@ =~= old(movement).move_queue@.drop_first());
    Some(event)
}

/// One aging step on an animation queue: the front event leaves once `now`
/// has reached its end.
pub open spec fn age_step(q: Seq<AnimationEvent>, now: u64) -> Seq<AnimationEvent> {
    if q.len() > 0 && now >= q[0].end_spec() {
        q.drop_first()
    } else {
        q
    }
}

/// Aging never removes an event before `now` reaches its end instant: until
/// then the event stays at the front of the queue.
pub proof fn lemma_event_kept_until_end(q: Seq<AnimationEvent>, now: u64)
    requires
        q.len() > 0,
        now < q[0].end_spec(),
    ensures
        age_step(q, now) == q,
        age_step(q, now)[0] == q[0],
{
}

/// Removes the front event of the queue if `now` has reached its end instant.
pub fn age_animation(animation: &mut Animation, now: u64)
    ensures
        final(animation).animation_queue@ == age_step(old(animation).animation_queue@, now),
        old(animation).animation_queue@.len() > 0 && now < old(
            animation,
        ).animation_queue@[0].end_spec() ==> final(animation).animation_queue@ == old(
            animation,
        ).animation_queue@,
{
    if animation.animation_queue.len() > 0 {
        let end = animation.animation_queue[0].end();
        if now >= end {
            animation.animation_queue.pop_front();
            assert(animation.animation_queue@ =~= old(animation).animation_queue@.drop_first());
        }
    }
}

/// Growth and life cycle of plants: reads positions and may write the entity
/// tiles and Plantae components. It changes nothing yet.
pub struct Plantae {
    pub ticks: u32,
}

impl Plantae {
    pub fn run(&mut self, entity_map: &mut EntityMap, world: &World)
        ensures
            *final(self) == *old(self),
            *final(entity_map) == *old(entity_map),
    {
    }
}

/// Intent capture: turns this tick's pressed direction into queued movement.
pub struct PlayerMovement;

impl PlayerMovement {
    pub fn run(&mut self, world: &mut World, controller: &ControllerState)
        requires
            old(world).wf(),
        ensures
            final(world).wf(),
            final(world).len_spec() == old(world).len_spec(),
            forall|id: int| #[trigger] final(world).intent_captured(old(world), id, *controller),
    {
        world.run_player_movement(controller);
    }
}

/// Movement resolution: applies one queued action per entity and records the
/// step for animation.
pub struct ProcessMovement;

impl ProcessMovement {
    pub fn run(&mut self, world: &mut World, now: u64)
        requires
            old(world).wf(),
            old(world).steps_fit(),
            now <= u64::MAX - MOVE_TRANSITION_MILLIS,
        ensures
            final(world).wf(),
            final(world).len_spec() == old(world).len_spec(),
            forall|id: int| #[trigger] final(world).movement_resolved(old(world), id, now),
    {
        world.run_process_movement(now);
    }
}

/// Animation aging: drops finished animation events, one per entity and tick.
pub struct ProcessAnimation;

impl ProcessAnimation {
    pub fn run(&mut self, world: &mut World, now: u64)
        requires
            old(world).wf(),
        ensures
            final(world).wf(),
            final(world).len_spec() == old(world).len_spec(),
            forall|id: int| #[trigger] final(world).animation_aged(old(world), id, now),
    {
        world.run_process_animation(now);
    }
}

} // verus!
