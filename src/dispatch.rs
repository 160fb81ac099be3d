//! Runs the systems of one tick in a dependency order fixed at construction.
use crate::components::MOVE_TRANSITION_MILLIS;
use crate::input::ControllerState;
use crate::resources::EntityMap;
use crate::scheduler::{
    build_order, deps_known, is_order, occurs, occurs_before, preds_before, schedulable, ScheduleError,
};
use crate::systems::{Plantae, PlayerMovement, ProcessAnimation, ProcessMovement};
use crate::world::World;
use vstd::prelude::*;

verus! {

/// The systems that a dispatcher can run.
#[derive(Clone, Copy, Debug, PartialEq, Eq, Structural)]
pub enum SystemKind {
    Plantae,
    PlayerMovement,
    ProcessMovement,
    ProcessAnimation,
}

/// Why a tick stopped before all its systems ran.
#[derive(Clone, Copy, Debug, PartialEq, Eq, Structural)]
pub enum TickError {
    /// A movement step would leave the range of `i32`.
    StepOutOfRange,
    /// The clock is too close to its end to time an animation.
    ClockOutOfRange,
}

/// `post` is what running system `kind` once on `pre` may give.
pub open spec fn system_step(kind: SystemKind, pre: World, post: World, c: ControllerState, now: u64) -> bool {
    &&& post.wf()
    &&& post.len_spec() == pre.len_spec()
    &&& match kind {
        SystemKind::Plantae => post == pre,
        SystemKind::PlayerMovement => forall|id: int| #[trigger] post.intent_captured(&pre, id, c),
        SystemKind::ProcessMovement => forall|id: int| #[trigger] post.movement_resolved(&pre, id, now),
        SystemKind::ProcessAnimation => forall|id: int| #[trigger] post.animation_aged(&pre, id, now),
    }
}

/// `ws` is a run of the systems in `order`: one world before each system and
/// one after the last.
pub open spec fn pipeline_run(
    systems: Seq<SystemKind>,
    order: Seq<usize>,
    ws: Seq<World>,
    c: ControllerState,
    now: u64,
) -> bool {
    &&& ws.len() == order.len() + 1
    &&& forall|k: int|
        0 <= k < order.len() ==> system_step(systems[#[trigger] order[k] as int], ws[k], ws[k + 1], c, now)
}

/// Movement resolution is among the scheduled systems.
pub open spec fn runs_movement(systems: Seq<SystemKind>, order: Seq<usize>) -> bool {
    exists|k: int| 0 <= k < order.len() && systems[#[trigger] order[k] as int] == SystemKind::ProcessMovement
}

/// A tick may stop at position `k` of `order`: the systems before it ran as
/// `ws` records, and movement resolution, due at `k`, cannot take its step.
pub open spec fn stops_at(
    systems: Seq<SystemKind>,
    order: Seq<usize>,
    ws: Seq<World>,
    c: ControllerState,
    now: u64,
    k: int,
) -> bool {
    &&& 0 <= k < order.len()
    &&& systems[order[k] as int] == SystemKind::ProcessMovement
    &&& pipeline_run(systems, order.take(k), ws, c, now)
    &&& (now > u64::MAX - MOVE_TRANSITION_MILLIS || !ws.last().steps_fit())
}

pub struct Dispatcher {
    systems: Vec<SystemKind>,
    order: Vec<usize>,
    plantae: Plantae,
}

impl Dispatcher {
    pub closed spec fn wf(&self) -> bool {
        forall|a: int| 0 <= a < self.order@.len() ==> #[trigger] self.order@[a] < self.systems@.len()
    }

    pub closed spec fn systems_spec(&self) -> Seq<SystemKind> {
        self.systems@
    }

    /// The indices of the systems in the order in which they run.
    pub closed spec fn order_spec(&self) -> Seq<usize> {
        self.order@
    }

    /// Orders `systems`, where `deps[i]` lists the systems that system `i` must
    /// run after.
    pub fn new(systems: Vec<SystemKind>, deps: &Vec<Vec<usize>>) -> (r: Result<Dispatcher, ScheduleError>)
        requires
            systems@.len() == deps@.len(),
        ensures
            r matches Ok(d) ==> d.wf() && d.systems_spec() == systems@ && is_order(deps@, d.order_spec()),
            r is Ok <==> deps_known(deps@) && schedulable(deps@),
            r matches Err(e) ==> (e == ScheduleError::UnknownDependency <==> !deps_known(deps@)),
            r matches Err(e) ==> (e == ScheduleError::Cycle <==> deps_known(deps@) && !schedulable(deps@)),
    {
        match build_order(deps) {
            Ok(order) => Ok(Dispatcher { systems, order, plantae: Plantae { ticks: 0 } }),
            Err(e) => Err(e),
        }
    }

    /// The standard pipeline in a valid order: growth, intent capture,
    /// movement resolution and animation aging, each once, with movement
    /// resolution after intent capture.
    pub open spec fn is_standard(&self) -> bool {
        &&& self.systems_spec() == seq![
            SystemKind::Plantae,
            SystemKind::PlayerMovement,
            SystemKind::ProcessMovement,
            SystemKind::ProcessAnimation,
        ]
        &&& self.order_spec().len() == 4
        &&& forall|v: int| 0 <= v < 4 ==> #[trigger] occurs(self.order_spec(), v)
        &&& forall|a: int|
            0 <= a < self.order_spec().len() && self.order_spec()[a] == 2 ==> #[trigger] occurs_before(
                self.order_spec(),
                a,
                1,
            )
        &&& runs_movement(self.systems_spec(), self.order_spec())
    }

    /// The standard pipeline: growth, intent capture, movement resolution
    /// after intent capture, and animation aging.
    pub fn standard() -> (r: Result<Dispatcher, ScheduleError>)
        ensures
            r is Ok,
            r matches Ok(d) ==> d.wf() && d.is_standard(),
    {
        let mut systems: Vec<SystemKind> = Vec::new();
        systems.push(SystemKind::Plantae);
        systems.push(SystemKind::PlayerMovement);
        systems.push(SystemKind::ProcessMovement);
        systems.push(SystemKind::ProcessAnimation);
        let mut after_intent: Vec<usize> = Vec::new();
        after_intent.push(1);
        let mut deps: Vec<Vec<usize>> = Vec::new();
        deps.push(Vec::new());
        deps.push(Vec::new());
        deps.push(after_intent);
        deps.push(Vec::new());
        proof {
            let order: Seq<usize> = seq![0, 1, 2, 3];
            assert(deps@[0]@.len() == 0 && deps@[1]@.len() == 0 && deps@[3]@.len() == 0);
            assert(deps@[2]@ =~= seq![1usize]);
            assert(deps_known(deps@));
            assert forall|v: int| 0 <= v < 4 implies #[trigger] occurs(order, v) by {
                assert(order[v] == v);
            }
            assert forall|a: int| 0 <= a < 4 implies #[trigger] preds_before(deps@, order, a) by {
                if a == 2 {
                    assert(order[1] == 1);
                    assert(occurs_before(order, 2, 1));
                }
            }
            assert(is_order(deps@, order));
        }
        let r = Dispatcher::new(systems, &deps);
        proof {
            if r is Ok {
                let order = r->Ok_0.order_spec();
                assert(occurs(order, 2));
                let a = choose|a: int| 0 <= a < order.len() && order[a] == 2;
                assert(r->Ok_0.systems_spec()[order[a] as int] == SystemKind::ProcessMovement);
                assert forall|a: int| 0 <= a < order.len() && order[a] == 2 implies #[trigger] occurs_before(order, a, 1) by {
                    assert(preds_before(deps@, order, a));
                    assert(deps@[order[a] as int]@[0] == 1);
                }
            }
        }
        assert(systems@ =~= seq![
            SystemKind::Plantae,
            SystemKind::PlayerMovement,
            SystemKind::ProcessMovement,
            SystemKind::ProcessAnimation,
        ]);
        r
    }

    /// Runs every system once, in order. A tick that cannot complete stops at
    /// the system that cannot run, and says why.
    pub fn dispatch(
        &mut self,
        world: &mut World,
        entity_map: &mut EntityMap,
        controller: &ControllerState,
        now: u64,
    ) -> (r: Result<(), TickError>)
        requires
            old(self).wf(),
            old(world).wf(),
        ensures
            final(self).wf(),
            final(self).systems_spec() == old(self).systems_spec(),
            final(self).order_spec() == old(self).order_spec(),
            final(world).wf(),
            final(world).len_spec() == old(world).len_spec(),
            *final(entity_map) == *old(entity_map),
            r == Err::<(), TickError>(TickError::ClockOutOfRange) <==> now > u64::MAX - MOVE_TRANSITION_MILLIS
                && runs_movement(old(self).systems_spec(), old(self).order_spec()),
            r == Err::<(), TickError>(TickError::StepOutOfRange) ==> now <= u64::MAX - MOVE_TRANSITION_MILLIS,
            r is Err ==> exists|ws: Seq<World>, k: int|
                #[trigger] stops_at(old(self).systems_spec(), old(self).order_spec(), ws, *controller, now, k)
                    && ws[0] == *old(world) && ws.last() == *final(world),
            r is Ok ==> exists|ws: Seq<World>|
                #[trigger] pipeline_run(old(self).systems_spec(), old(self).order_spec(), ws, *controller, now)
                    && ws[0] == *old(world) && ws.last() == *final(world),
    {
        let ghost mut ws: Seq<World> = seq![*world];
        let mut k: usize = 0;
        while k < self.order.len()
            invariant
                self.wf(),
                self.systems@ == old(self).systems@,
                self.order@ == old(self).order@,
                world.wf(),
                world.len_spec() == old(world).len_spec(),
                *entity_map == *old(entity_map),
                0 <= k <= self.order@.len(),
                ws.len() == k + 1,
                ws[0] == *old(world),
                ws.last() == *world,
                forall|m: int|
                    0 <= m < k ==> system_step(self.systems@[#[trigger] self.order@[m] as int], ws[m], ws[m + 1], *controller, now),
                now > u64::MAX - MOVE_TRANSITION_MILLIS ==> forall|m: int|
                    0 <= m < k ==> self.systems@[#[trigger] self.order@[m] as int] != SystemKind::ProcessMovement,
            decreases self.order@.len() - k,
        {
            let ghost pre = *world;
            let idx = self.order[k];
            match self.systems[idx] {
                SystemKind::Plantae => {
                    self.plantae.run(entity_map, world);
                },
                SystemKind::PlayerMovement => {
                    let mut system = PlayerMovement;
                    system.run(world, controller);
                },
                SystemKind::ProcessMovement => {
                    proof {
                        let run = self.order@.take(k as int);
                        assert forall|m: int| 0 <= m < k implies run[m] == self.order@[m] by {}
                        assert(pipeline_run(self.systems@, run, ws, *controller, now));
                    }
                    if now > u64::MAX - MOVE_TRANSITION_MILLIS {
                        assert(stops_at(self.systems@, self.order@, ws, *controller, now, k as int));
                        return Err(TickError::ClockOutOfRange);
                    }
                    if !world.check_steps_fit() {
                        assert(stops_at(self.systems@, self.order@, ws, *controller, now, k as int));
                        return Err(TickError::StepOutOfRange);
                    }
                    let mut system = ProcessMovement;
                    system.run(world, now);
                },
                SystemKind::ProcessAnimation => {
                    let mut system = ProcessAnimation;
                    system.run(world, now);
                },
            }
            proof {
                assert(system_step(self.systems@[idx as int], pre, *world, *controller, now));
                let ws1 = ws.push(*world);
                assert forall|m: int|
                    0 <= m < k + 1 implies system_step(self.systems@[#[trigger] self.order@[m] as int], ws1[m], ws1[m + 1], *controller, now) by {
                    if m < k {
                        assert(ws1[m] == ws[m] && ws1[m + 1] == ws[m + 1]);
                    }
                }
                ws = ws1;
            }
            k = k + 1;
        }
        assert(pipeline_run(self.systems@, self.order@, ws, *controller, now));
        assert(now > u64::MAX - MOVE_TRANSITION_MILLIS ==> !runs_movement(self.systems@, self.order@));
        assert(pipeline_run(old(self).systems_spec(), old(self).order_spec(), ws, *controller, now)
            && ws[0] == *old(world) && ws.last() == *world);
        Ok(())
    }
}

} // verus!
