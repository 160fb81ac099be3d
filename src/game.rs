//! The simulation state of a running game and its fixed-step tick.
use crate::components::{MoveAction, Position, Sprite, MOVE_TRANSITION_MILLIS};
use crate::dispatch::{pipeline_run, runs_movement, stops_at, Dispatcher, TickError};
use crate::entities::create_player;
use crate::input::{Buttons, ControllerState};
use crate::components::Tile;
use crate::resources::{extent, is_background_sprite, BackgroundMap, EntityMap, MAP_EXTENT};
use crate::world::{Entity, World};
use vstd::prelude::*;

verus! {

/// Where the player starts.
pub const PLAYER_START_X: i32 = 3;

pub const PLAYER_START_Y: i32 = 3;

/// How many fixed ticks of `step` milliseconds are due when the next one is
/// timed at `next` and the clock reads `elapsed`: those at `next`,
/// `next + step`, ... up to `elapsed`.
pub open spec fn due_count(next: int, elapsed: int, step: int) -> int {
    if elapsed < next {
        0
    } else {
        (elapsed - next) / step + 1
    }
}

/// The number of due ticks, saturated at `u64::MAX`.
pub fn ticks_due(next_ms: u64, elapsed_ms: u64, step_ms: u64) -> (r: u64)
    requires
        step_ms > 0,
    ensures
        r == (if due_count(next_ms as int, elapsed_ms as int, step_ms as int) <= u64::MAX {
            due_count(next_ms as int, elapsed_ms as int, step_ms as int)
        } else {
            u64::MAX as int
        }),
{
    if elapsed_ms < next_ms {
        0
    } else {
        let d = (elapsed_ms - next_ms) / step_ms;
        if d == u64::MAX {
            u64::MAX
        } else {
            d + 1
        }
    }
}

/// `post` is `pre` after one completed tick at `now`: every scheduled system
/// ran once, in order, and no button counts as newly pressed any more.
pub open spec fn tick_done(pre: Simulation, post: Simulation, now: u64) -> bool {
    &&& post.wf()
    &&& post.dispatcher.systems_spec() == pre.dispatcher.systems_spec()
    &&& post.dispatcher.order_spec() == pre.dispatcher.order_spec()
    &&& post.entity_map.tiles@ == pre.entity_map.tiles@
    &&& post.background_map.tiles@ == pre.background_map.tiles@
    &&& post.player == pre.player
    &&& post.controller.held == pre.controller.held
    &&& forall|b: Buttons| !post.controller.pressed.spec_get(b)
    &&& exists|ws: Seq<World>|
        #[trigger] pipeline_run(pre.dispatcher.systems_spec(), pre.dispatcher.order_spec(), ws, pre.controller, now)
            && ws[0] == pre.world && ws.last() == post.world
}

/// A tick at `now` from `pre` reaches a movement resolution that cannot take
/// its step.
pub open spec fn tick_blocked(pre: Simulation, now: u64) -> bool {
    exists|ws: Seq<World>, k: int|
        #[trigger] stops_at(pre.dispatcher.systems_spec(), pre.dispatcher.order_spec(), ws, pre.controller, now, k)
            && ws[0] == pre.world
}

/// The time of the `i`-th of a run of ticks `step` apart from `first`.
pub open spec fn tick_time(first: u64, step: u64, i: int) -> u64 {
    (first + i * step) as u64
}

/// The world, its resources, the controller state and the system pipeline.
pub struct Simulation {
    pub world: World,
    pub entity_map: EntityMap,
    pub background_map: BackgroundMap,
    pub controller: ControllerState,
    pub dispatcher: Dispatcher,
    pub player: Entity,
}

impl Simulation {
    pub open spec fn wf(&self) -> bool {
        &&& self.world.wf()
        &&& self.dispatcher.wf()
        &&& self.entity_map.tiles.wf()
        &&& self.background_map.tiles.wf()
    }

    /// Sets up a game: empty entity tiles, a freshly generated background, no
    /// button held, the player at its start, and the standard pipeline.
    pub fn new() -> (r: Result<Simulation, crate::scheduler::ScheduleError>)
        ensures
            r is Ok,
            r matches Ok(s) ==> {
                &&& s.wf()
                &&& s.entity_map.tiles@ == Map::<(i32, i32), Tile>::empty()
                &&& s.background_map.tiles@.dom() == extent()
                &&& forall|b: Buttons| !s.controller.held.spec_get(b) && !s.controller.pressed.spec_get(b)
                &&& s.world.len_spec() == 1
                &&& s.player.id == 0
                &&& s.world.position_at(0) == Some(Position { x: PLAYER_START_X, y: PLAYER_START_Y })
                &&& s.world.movement_at(0).is_some()
                &&& s.world.movement_at(0).unwrap().player_owned
                &&& s.world.movement_at(0).unwrap().move_queue@ == Seq::<MoveAction>::empty()
                &&& s.world.sprite_at(0) == Some(Sprite { tile: Tile { sprite_layer: 1, sprite_id: 5 } })
                &&& s.world.animation_at(0).is_none()
                &&& s.background_map.tiles.len_spec() == MAP_EXTENT * MAP_EXTENT
                &&& forall|k: (i32, i32)| extent().contains(k) ==> is_background_sprite(#[trigger] s.background_map.tiles@[k])
                &&& s.dispatcher.is_standard()
            },
    {
        let entity_map = EntityMap::new();
        let mut background_map = BackgroundMap::new();
        background_map.generate();
        let controller = ControllerState::new();
        let mut world = World::new();
        let player = create_player(&mut world, PLAYER_START_X, PLAYER_START_Y);
        match Dispatcher::standard() {
            Ok(dispatcher) => Ok(Simulation { world, entity_map, background_map, controller, dispatcher, player }),
            Err(e) => Err(e),
        }
    }

    /// One fixed tick at time `now`: every system runs once, then no button
    /// counts as newly pressed any more.
    pub fn tick(&mut self, now: u64) -> (r: Result<(), TickError>)
        requires
            old(self).wf(),
        ensures
            final(self).wf(),
            final(self).world.len_spec() == old(self).world.len_spec(),
            final(self).entity_map.tiles@ == old(self).entity_map.tiles@,
            final(self).background_map.tiles@ == old(self).background_map.tiles@,
            final(self).controller.held == old(self).controller.held,
            r is Ok ==> forall|b: Buttons| !final(self).controller.pressed.spec_get(b),
            r is Ok ==> tick_done(*old(self), *final(self), now),
            r is Err ==> tick_blocked(*old(self), now),
            final(self).player == old(self).player,
            final(self).dispatcher.systems_spec() == old(self).dispatcher.systems_spec(),
            final(self).dispatcher.order_spec() == old(self).dispatcher.order_spec(),
            r is Err ==> final(self).controller == old(self).controller,
            r == Err::<(), TickError>(TickError::ClockOutOfRange) <==> now > u64::MAX - MOVE_TRANSITION_MILLIS
                && runs_movement(old(self).dispatcher.systems_spec(), old(self).dispatcher.order_spec()),
            old(self).dispatcher.is_standard() ==> (now > u64::MAX - MOVE_TRANSITION_MILLIS <==> r
                == Err::<(), TickError>(TickError::ClockOutOfRange)),
            r == Err::<(), TickError>(TickError::StepOutOfRange) ==> now <= u64::MAX - MOVE_TRANSITION_MILLIS,
            r is Err ==> exists|ws: Seq<World>, k: int|
                #[trigger] stops_at(
                    old(self).dispatcher.systems_spec(),
                    old(self).dispatcher.order_spec(),
                    ws,
                    old(self).controller,
                    now,
                    k,
                ) && ws[0] == old(self).world && ws.last() == final(self).world,
            r is Ok ==> exists|ws: Seq<World>|
                #[trigger] pipeline_run(
                    old(self).dispatcher.systems_spec(),
                    old(self).dispatcher.order_spec(),
                    ws,
                    old(self).controller,
                    now,
                ) && ws[0] == old(self).world && ws.last() == final(self).world,
    {
        let r = self.dispatcher.dispatch(&mut self.world, &mut self.entity_map, &self.controller, now);
        if r.is_ok() {
            self.controller.update();
        }
        r
    }

    /// Runs `count` fixed ticks, at `first`, `first + step`, ..., stopping at
    /// the first tick that cannot complete.
    pub fn run_ticks(&mut self, first: u64, step: u64, count: u64) -> (r: Result<(), TickError>)
        requires
            old(self).wf(),
            count > 0 ==> first + (count - 1) * step <= u64::MAX,
        ensures
            final(self).wf(),
            count == 0 ==> r is Ok && *final(self) == *old(self),
            r is Ok ==> exists|states: Seq<Simulation>|
                states.len() == count + 1 && states[0] == *old(self) && states.last() == *final(self)
                    && forall|i: int|
                    0 <= i < count ==> #[trigger] tick_done(states[i], states[i + 1], tick_time(first, step, i)),
            r is Err ==> exists|states: Seq<Simulation>, n: int|
                0 <= n < count && states.len() == n + 1 && states[0] == *old(self)
                    && (forall|i: int|
                    0 <= i < n ==> #[trigger] tick_done(states[i], states[i + 1], tick_time(first, step, i)))
                    && #[trigger] tick_blocked(states[n], tick_time(first, step, n)),
    {
        let ghost mut states: Seq<Simulation> = seq![*self];
        let mut now: u64 = first;
        let mut i: u64 = 0;
        while i < count
            invariant
                self.wf(),
                0 <= i <= count,
                count > 0 ==> first + (count - 1) * step <= u64::MAX,
                i < count ==> now == tick_time(first, step, i as int) && now == first + i * step,
                states.len() == i + 1,
                states[0] == *old(self),
                states.last() == *self,
                forall|j: int|
                    0 <= j < i ==> #[trigger] tick_done(states[j], states[j + 1], tick_time(first, step, j)),
            decreases count - i,
        {
            let ghost pre = *self;
            match self.tick(now) {
                Ok(()) => {},
                Err(e) => {
                    assert(tick_blocked(states[i as int], tick_time(first, step, i as int)));
                    return Err(e);
                },
            }
            proof {
                let s1 = states.push(*self);
                assert forall|j: int|
                    0 <= j < i + 1 implies #[trigger] tick_done(s1[j], s1[j + 1], tick_time(first, step, j)) by {
                    if j < i {
                        assert(s1[j] == states[j] && s1[j + 1] == states[j + 1]);
                    }
                }
                states = s1;
            }
            i = i + 1;
            if i < count {
                proof {
                    assert(first + i * step <= first + (count - 1) * step) by (nonlinear_arith)
                        requires
                            i < count,
                    ;
                    assert(i * step == (i - 1) * step + step) by (nonlinear_arith);
                }
                now = now + step;
            }
        }
        if count == 0 {
            assert(states.last() == states[0]);
        }
        Ok(())
    }
}

} // verus!
