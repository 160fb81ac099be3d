//! The entity store: opaque entity identifiers and one column per component
//! type, aligned by identifier.
use crate::components::{Animation, AnimationEvent, MoveAction, Movement, Plantae, Player, Position, Solid, Sprite};
use crate::input::ControllerState;
use crate::systems::{
    age_animation, age_step, appended_intent, capture_intent, lemma_resolution_drains_queue,
    lemma_resolve_steps_last, resolve_movement, resolve_step, resolve_steps, step_event, step_fits,
};
use crate::components::sum_deltas;
use crate::components::MOVE_TRANSITION_MILLIS;
use vstd::prelude::*;

verus! {

/// An opaque entity identifier. Identifiers are never reused.
#[derive(Clone, Copy, Debug, PartialEq, Eq, Structural)]
pub struct Entity {
    pub id: usize,
}

/// The component types that the store holds.
#[derive(Clone, Copy, Debug, PartialEq, Eq, Structural)]
pub enum ComponentKind {
    Position,
    Movement,
    Sprite,
    Animation,
    Player,
    Solid,
    Plantae,
}

/// The initial components of a new entity.
pub struct Bundle {
    pub position: Option<Position>,
    pub movement: Option<Movement>,
    pub sprite: Option<Sprite>,
    pub animation: Option<Animation>,
    pub player: Option<Player>,
    pub solid: Option<Solid>,
    pub plantae: Option<Plantae>,
}

impl Bundle {
    /// A bundle without components.
    pub fn new() -> (r: Self)
        ensures
            r.position.is_none() && r.movement.is_none() && r.sprite.is_none()
                && r.animation.is_none() && r.player.is_none() && r.solid.is_none()
                && r.plantae.is_none(),
    {
        Bundle {
            position: None,
            movement: None,
            sprite: None,
            animation: None,
            player: None,
            solid: None,
            plantae: None,
        }
    }
}

/// Entities and their components, one column per component type.
pub struct World {
    alive: Vec<bool>,
    positions: Vec<Option<Position>>,
    movements: Vec<Option<Movement>>,
    sprites: Vec<Option<Sprite>>,
    animations: Vec<Option<Animation>>,
    players: Vec<Option<Player>>,
    solids: Vec<Option<Solid>>,
    plantae: Vec<Option<Plantae>>,
}

impl World {
    /// Columns are aligned, and a destroyed entity holds no component.
    pub closed spec fn wf(&self) -> bool {
        let n = self.alive@.len();
        &&& self.positions@.len() == n
        &&& self.movements@.len() == n
        &&& self.sprites@.len() == n
        &&& self.animations@.len() == n
        &&& self.players@.len() == n
        &&& self.solids@.len() == n
        &&& self.plantae@.len() == n
        &&& forall|i: int|
            0 <= i < n && !#[trigger] self.alive@[i] ==> self.positions@[i].is_none()
                && self.movements@[i].is_none() && self.sprites@[i].is_none()
                && self.animations@[i].is_none() && self.players@[i].is_none()
                && self.solids@[i].is_none() && self.plantae@[i].is_none()
    }

    /// How many identifiers have been handed out.
    pub closed spec fn len_spec(&self) -> nat {
        self.alive@.len()
    }

    pub closed spec fn alive_spec(&self, id: int) -> bool {
        0 <= id < self.alive@.len() && self.alive@[id]
    }

    pub closed spec fn position_at(&self, id: int) -> Option<Position> {
        if 0 <= id < self.positions@.len() { self.positions@[id] } else { None }
    }

    pub closed spec fn movement_at(&self, id: int) -> Option<Movement> {
        if 0 <= id < self.movements@.len() { self.movements@[id] } else { None }
    }

    pub closed spec fn sprite_at(&self, id: int) -> Option<Sprite> {
        if 0 <= id < self.sprites@.len() { self.sprites@[id] } else { None }
    }

    pub closed spec fn animation_at(&self, id: int) -> Option<Animation> {
        if 0 <= id < self.animations@.len() { self.animations@[id] } else { None }
    }

    pub closed spec fn player_at(&self, id: int) -> Option<Player> {
        if 0 <= id < self.players@.len() { self.players@[id] } else { None }
    }

    pub closed spec fn solid_at(&self, id: int) -> Option<Solid> {
        if 0 <= id < self.solids@.len() { self.solids@[id] } else { None }
    }

    pub closed spec fn plantae_at(&self, id: int) -> Option<Plantae> {
        if 0 <= id < self.plantae@.len() { self.plantae@[id] } else { None }
    }

    /// The entity holds a component of kind `k`.
    pub open spec fn has_spec(&self, id: int, k: ComponentKind) -> bool {
        match k {
            ComponentKind::Position => self.position_at(id).is_some(),
            ComponentKind::Movement => self.movement_at(id).is_some(),
            ComponentKind::Sprite => self.sprite_at(id).is_some(),
            ComponentKind::Animation => self.animation_at(id).is_some(),
            ComponentKind::Player => self.player_at(id).is_some(),
            ComponentKind::Solid => self.solid_at(id).is_some(),
            ComponentKind::Plantae => self.plantae_at(id).is_some(),
        }
    }

    /// The entity is alive and holds every listed kind of component.
    pub open spec fn joins(&self, id: int, kinds: Seq<ComponentKind>) -> bool {
        self.alive_spec(id) && forall|j: int| 0 <= j < kinds.len() ==> self.has_spec(id, #[trigger] kinds[j])
    }

    /// Entity `id` is the same in both worlds.
    pub open spec fn same_entity(&self, other: &World, id: int) -> bool {
        &&& self.alive_spec(id) == other.alive_spec(id)
        &&& self.position_at(id) == other.position_at(id)
        &&& self.movement_at(id) == other.movement_at(id)
        &&& self.sprite_at(id) == other.sprite_at(id)
        &&& self.animation_at(id) == other.animation_at(id)
        &&& self.player_at(id) == other.player_at(id)
        &&& self.solid_at(id) == other.solid_at(id)
        &&& self.plantae_at(id) == other.plantae_at(id)
    }

    /// No identifier at or past the count handed out is alive or holds a component.
    pub proof fn lemma_unissued_is_empty(&self, id: int)
        requires
            self.wf(),
            !(0 <= id < self.len_spec()),
        ensures
            !self.alive_spec(id),
            forall|k: ComponentKind| !self.has_spec(id, k),
    {
    }

    /// In a well-formed world only a live entity holds components.
    pub proof fn lemma_components_only_when_alive(&self, id: int, k: ComponentKind)
        requires
            self.wf(),
            self.has_spec(id, k),
        ensures
            self.alive_spec(id),
    {
        assert(!self.alive@[id] ==> self.positions@[id].is_none());
    }

    /// A destroyed or never created entity holds no component and is yielded by
    /// no joined query.
    pub proof fn lemma_dead_never_joined(&self, id: int, kinds: Seq<ComponentKind>)
        requires
            self.wf(),
            !self.alive_spec(id),
        ensures
            forall|k: ComponentKind| !self.has_spec(id, k),
            !self.joins(id, kinds),
    {
        assert forall|k: ComponentKind| !self.has_spec(id, k) by {
            if self.has_spec(id, k) {
                self.lemma_components_only_when_alive(id, k);
            }
        }
    }

    pub fn new() -> (r: Self)
        ensures
            r.wf(),
            r.len_spec() == 0,
    {
        World {
            alive: Vec::new(),
            positions: Vec::new(),
            movements: Vec::new(),
            sprites: Vec::new(),
            animations: Vec::new(),
            players: Vec::new(),
            solids: Vec::new(),
            plantae: Vec::new(),
        }
    }

    /// How many identifiers have been handed out.
    pub fn entity_count(&self) -> (r: usize)
        ensures
            r == self.len_spec(),
    {
        self.alive.len()
    }

    pub fn is_alive(&self, e: Entity) -> (r: bool)
        requires
            self.wf(),
        ensures
            r == self.alive_spec(e.id as int),
    {
        e.id < self.alive.len() && self.alive[e.id]
    }

    /// Creates an entity holding the bundle's components.
    pub fn create_entity(&mut self, bundle: Bundle) -> (e: Entity)
        requires
            old(self).wf(),
            old(self).len_spec() < usize::MAX,
        ensures
            final(self).wf(),
            e.id == old(self).len_spec(),
            final(self).len_spec() == old(self).len_spec() + 1,
            final(self).alive_spec(e.id as int),
            final(self).position_at(e.id as int) == bundle.position,
            final(self).movement_at(e.id as int) == bundle.movement,
            final(self).sprite_at(e.id as int) == bundle.sprite,
            final(self).animation_at(e.id as int) == bundle.animation,
            final(self).player_at(e.id as int) == bundle.player,
            final(self).solid_at(e.id as int) == bundle.solid,
            final(self).plantae_at(e.id as int) == bundle.plantae,
            forall|id: int| id != e.id ==> #[trigger] final(self).same_entity(old(self), id),
    {
        let id = self.alive.len();
        let Bundle { position, movement, sprite, animation, player, solid, plantae } = bundle;
        self.alive.push(true);
        self.positions.push(position);
        self.movements.push(movement);
        self.sprites.push(sprite);
        self.animations.push(animation);
        self.players.push(player);
        self.solids.push(solid);
        self.plantae.push(plantae);
        proof {
            assert forall|i: int| 0 <= i < self.alive@.len() && !#[trigger] self.alive@[i] implies self.positions@[i].is_none()
                && self.movements@[i].is_none() && self.sprites@[i].is_none()
                && self.animations@[i].is_none() && self.players@[i].is_none()
                && self.solids@[i].is_none() && self.plantae@[i].is_none() by {
                assert(i < id);
                assert(old(self).alive@[i] == self.alive@[i]);
            }
        }
        Entity { id }
    }

    /// Destroys an entity: it is no longer alive and holds no component.
    pub fn destroy_entity(&mut self, e: Entity)
        requires
            old(self).wf(),
        ensures
            final(self).wf(),
            final(self).len_spec() == old(self).len_spec(),
            !final(self).alive_spec(e.id as int),
            forall|k: ComponentKind| !final(self).has_spec(e.id as int, k),
            forall|id: int| id != e.id ==> #[trigger] final(self).same_entity(old(self), id),
    {
        if e.id < self.alive.len() {
            let i = e.id;
            self.alive.set(i, false);
            self.positions.set(i, None);
            self.movements.set(i, None);
            self.sprites.set(i, None);
            self.animations.set(i, None);
            self.players.set(i, None);
            self.solids.set(i, None);
            self.plantae.set(i, None);
        }
        proof {
            assert forall|i: int| 0 <= i < self.alive@.len() && !#[trigger] self.alive@[i] implies self.positions@[i].is_none()
                && self.movements@[i].is_none() && self.sprites@[i].is_none()
                && self.animations@[i].is_none() && self.players@[i].is_none()
                && self.solids@[i].is_none() && self.plantae@[i].is_none() by {
                if i != e.id {
                    assert(old(self).alive@[i] == self.alive@[i]);
                }
            }
        }
    }

    /// Whether the entity holds a component of kind `k`.
    pub fn has_component(&self, e: Entity, k: ComponentKind) -> (r: bool)
        requires
            self.wf(),
        ensures
            r == self.has_spec(e.id as int, k),
    {
        if e.id >= self.alive.len() {
            return false;
        }
        let i = e.id;
        match k {
            ComponentKind::Position => self.positions[i].is_some(),
            ComponentKind::Movement => self.movements[i].is_some(),
            ComponentKind::Sprite => self.sprites[i].is_some(),
            ComponentKind::Animation => self.animations[i].is_some(),
            ComponentKind::Player => self.players[i].is_some(),
            ComponentKind::Solid => self.solids[i].is_some(),
            ComponentKind::Plantae => self.plantae[i].is_some(),
        }
    }

    /// The live entities that hold every listed kind of component, in increasing
    /// identifier order.
    pub fn join(&self, kinds: &Vec<ComponentKind>) -> (r: Vec<Entity>)
        requires
            self.wf(),
        ensures
            forall|j: int| 0 <= j < r@.len() ==> self.joins(#[trigger] r@[j].id as int, kinds@),
            forall|id: int|
                self.joins(id, kinds@) ==> exists|j: int| 0 <= j < r@.len() && #[trigger] r@[j].id == id,
            forall|a: int, b: int| 0 <= a < b < r@.len() ==> r@[a].id < r@[b].id,
            forall|j: int| 0 <= j < r@.len() ==> #[trigger] r@[j].id < self.len_spec(),
    {
        let mut r: Vec<Entity> = Vec::new();
        let mut i: usize = 0;
        while i < self.alive.len()
            invariant
                self.wf(),
                0 <= i <= self.alive@.len(),
                forall|j: int| 0 <= j < r@.len() ==> self.joins(#[trigger] r@[j].id as int, kinds@),
                forall|j: int| 0 <= j < r@.len() ==> #[trigger] r@[j].id < i,
                forall|id: int|
                    0 <= id < i && self.joins(id, kinds@) ==> exists|j: int|
                        0 <= j < r@.len() && #[trigger] r@[j].id == id,
                forall|a: int, b: int| 0 <= a < b < r@.len() ==> r@[a].id < r@[b].id,
            decreases self.alive@.len() - i,
        {
            let e = Entity { id: i };
            let mut all = self.alive[i];
            let mut k: usize = 0;
            while k < kinds.len()
                invariant
                    self.wf(),
                    i < self.alive@.len(),
                    e.id == i,
                    0 <= k <= kinds@.len(),
                    all == (self.alive_spec(i as int) && forall|j: int|
                        0 <= j < k ==> self.has_spec(i as int, #[trigger] kinds@[j])),
                decreases kinds@.len() - k,
            {
                let h = self.has_component(e, kinds[k]);
                assert(self.has_spec(i as int, kinds@[k as int]) == h);
                all = all && h;
                k = k + 1;
            }
            let ghost before = r@;
            if all {
                r.push(e);
            }
            proof {
                assert(all == self.joins(i as int, kinds@));
                assert forall|id: int|
                    0 <= id <= i && self.joins(id, kinds@) implies exists|j: int|
                        0 <= j < r@.len() && #[trigger] r@[j].id == id by {
                    if id == i {
                        assert(r@[r@.len() - 1].id == id);
                    } else {
                        let j = choose|j: int| 0 <= j < before.len() && #[trigger] before[j].id == id;
                        assert(r@[j].id == id);
                    }
                }
            }
            i = i + 1;
        }
        r
    }

    pub fn position(&self, e: Entity) -> (r: Option<Position>)
        ensures
            r == self.position_at(e.id as int),
    {
        if e.id < self.positions.len() { self.positions[e.id] } else { None }
    }

    pub fn sprite(&self, e: Entity) -> (r: Option<Sprite>)
        ensures
            r == self.sprite_at(e.id as int),
    {
        if e.id < self.sprites.len() { self.sprites[e.id] } else { None }
    }

    pub fn movement(&self, e: Entity) -> (r: Option<&Movement>)
        ensures
            r.is_some() == self.movement_at(e.id as int).is_some(),
            r.is_some() ==> *r.unwrap() == self.movement_at(e.id as int).unwrap(),
    {
        if e.id < self.movements.len() { self.movements[e.id].as_ref() } else { None }
    }

    pub fn animation(&self, e: Entity) -> (r: Option<&Animation>)
        ensures
            r.is_some() == self.animation_at(e.id as int).is_some(),
            r.is_some() ==> *r.unwrap() == self.animation_at(e.id as int).unwrap(),
    {
        if e.id < self.animations.len() { self.animations[e.id].as_ref() } else { None }
    }

    /// Entity `id` has the same liveness, sprite and tags in both worlds.
    pub open spec fn same_static(&self, other: &World, id: int) -> bool {
        &&& self.alive_spec(id) == other.alive_spec(id)
        &&& self.sprite_at(id) == other.sprite_at(id)
        &&& self.player_at(id) == other.player_at(id)
        &&& self.solid_at(id) == other.solid_at(id)
        &&& self.plantae_at(id) == other.plantae_at(id)
    }

    /// Entity `id` went through one intent capture from `pre` with the controller `c`.
    pub open spec fn intent_captured(&self, pre: &World, id: int, c: ControllerState) -> bool {
        &&& self.same_static(pre, id)
        &&& self.position_at(id) == pre.position_at(id)
        &&& self.animation_at(id) == pre.animation_at(id)
        &&& self.movement_at(id).is_some() == pre.movement_at(id).is_some()
        &&& pre.movement_at(id).is_some() ==> {
            let m0 = pre.movement_at(id).unwrap();
            let m1 = self.movement_at(id).unwrap();
            &&& m1.player_owned == m0.player_owned
            &&& m1.move_queue@ == m0.move_queue@ + appended_intent(m0.player_owned, c)
        }
    }

    /// Entity `id` went through one movement resolution from `pre` at `now`.
    pub open spec fn movement_resolved(&self, pre: &World, id: int, now: u64) -> bool {
        &&& self.same_static(pre, id)
        &&& self.movement_at(id).is_some() == pre.movement_at(id).is_some()
        &&& self.position_at(id).is_some() == pre.position_at(id).is_some()
        &&& self.animation_at(id).is_some() == pre.animation_at(id).is_some()
        &&& if pre.movement_at(id).is_some() && pre.position_at(id).is_some() {
            let m0 = pre.movement_at(id).unwrap();
            let p0 = pre.position_at(id).unwrap();
            let m1 = self.movement_at(id).unwrap();
            let p1 = self.position_at(id).unwrap();
            let s = resolve_step(m0.move_queue@, p0.x as int, p0.y as int);
            &&& m1.player_owned == m0.player_owned
            &&& m1.move_queue@ == s.0
            &&& p1.x == s.1
            &&& p1.y == s.2
            &&& pre.animation_at(id).is_some() ==> self.animation_at(id).unwrap().animation_queue@
                == if m0.move_queue@.len() > 0 {
                pre.animation_at(id).unwrap().animation_queue@.push(
                    AnimationEvent::Position(step_event(p0, m0.move_queue@[0], now)),
                )
            } else {
                pre.animation_at(id).unwrap().animation_queue@
            }
        } else {
            &&& self.movement_at(id) == pre.movement_at(id)
            &&& self.position_at(id) == pre.position_at(id)
            &&& self.animation_at(id) == pre.animation_at(id)
        }
    }

    /// Entity `id` went through one animation aging from `pre` at `now`.
    pub open spec fn animation_aged(&self, pre: &World, id: int, now: u64) -> bool {
        &&& self.same_static(pre, id)
        &&& self.position_at(id) == pre.position_at(id)
        &&& self.movement_at(id) == pre.movement_at(id)
        &&& self.animation_at(id).is_some() == pre.animation_at(id).is_some()
        &&& pre.animation_at(id).is_some() ==> self.animation_at(id).unwrap().animation_queue@
            == age_step(pre.animation_at(id).unwrap().animation_queue@, now)
    }

    /// Every entity that holds both Movement and Position can take its next step
    /// without leaving the range of `i32`.
    pub open spec fn steps_fit(&self) -> bool {
        forall|id: int|
            #![trigger self.movement_at(id)]
            #![trigger self.position_at(id)]
            self.movement_at(id).is_some() && self.position_at(id).is_some() ==> step_fits(
                self.movement_at(id).unwrap().move_queue@,
                self.position_at(id).unwrap(),
            )
    }

    /// Intent capture: appends the controller's action to the queue of every
    /// player-owned entity with a Movement component.
    pub fn run_player_movement(&mut self, controller: &ControllerState)
        requires
            old(self).wf(),
        ensures
            final(self).wf(),
            final(self).len_spec() == old(self).len_spec(),
            forall|id: int| #[trigger] final(self).intent_captured(old(self), id, *controller),
    {
        let mut i: usize = 0;
        while i < self.movements.len()
            invariant
                self.wf(),
                self.alive@ == old(self).alive@,
                self.positions@ == old(self).positions@,
                self.sprites@ == old(self).sprites@,
                self.animations@ == old(self).animations@,
                self.players@ == old(self).players@,
                self.solids@ == old(self).solids@,
                self.plantae@ == old(self).plantae@,
                self.movements@.len() == old(self).movements@.len(),
                0 <= i <= self.movements@.len(),
                forall|j: int| 0 <= j < i ==> #[trigger] self.intent_captured(old(self), j, *controller),
                forall|j: int| i <= j < self.movements@.len() ==> #[trigger] self.movements@[j] == old(self).movements@[j],
            decreases self.movements@.len() - i,
        {
            let ghost pre = *self;
            let mut slot: Option<Movement> = None;
            self.movements.set_and_swap(i, &mut slot);
            let restored = match slot {
                Some(mut m) => {
                    capture_intent(controller, &mut m);
                    Some(m)
                },
                None => None,
            };
            self.movements.set(i, restored);
            proof {
                assert(self.intent_captured(old(self), i as int, *controller));
                assert forall|j: int| 0 <= j < i implies #[trigger] self.intent_captured(old(self), j, *controller) by {
                    assert(pre.intent_captured(old(self), j, *controller));
                    assert(self.movements@[j] == pre.movements@[j]);
                }
            }
            i = i + 1;
        }
    }

    /// Movement resolution: every entity with Movement and Position takes the
    /// front action of its queue, if any; one with Animation as well records
    /// the step as an animation event.
    pub fn run_process_movement(&mut self, now: u64)
        requires
            old(self).wf(),
            old(self).steps_fit(),
            now <= u64::MAX - MOVE_TRANSITION_MILLIS,
        ensures
            final(self).wf(),
            final(self).len_spec() == old(self).len_spec(),
            forall|id: int| #[trigger] final(self).movement_resolved(old(self), id, now),
    {
        let mut i: usize = 0;
        while i < self.movements.len()
            invariant
                self.wf(),
                old(self).wf(),
                old(self).steps_fit(),
                now <= u64::MAX - MOVE_TRANSITION_MILLIS,
                self.alive@ == old(self).alive@,
                self.sprites@ == old(self).sprites@,
                self.players@ == old(self).players@,
                self.solids@ == old(self).solids@,
                self.plantae@ == old(self).plantae@,
                self.movements@.len() == old(self).movements@.len(),
                0 <= i <= self.movements@.len(),
                forall|j: int| 0 <= j < i ==> #[trigger] self.movement_resolved(old(self), j, now),
                forall|j: int| i <= j < self.movements@.len() ==> #[trigger] self.movements@[j] == old(self).movements@[j],
                forall|j: int| i <= j < self.movements@.len() ==> #[trigger] self.positions@[j] == old(self).positions@[j],
                forall|j: int| i <= j < self.movements@.len() ==> #[trigger] self.animations@[j] == old(self).animations@[j],
            decreases self.movements@.len() - i,
        {
            let ghost pre = *self;
            match self.positions[i] {
                Some(p0) => {
                    let mut slot: Option<Movement> = None;
                    self.movements.set_and_swap(i, &mut slot);
                    match slot {
                        Some(mut m) => {
                            let mut p = p0;
                            proof {
                                assert(old(self).movement_at(i as int) == Some(m));
                                assert(old(self).position_at(i as int) == Some(p0));
                            }
                            let ev = resolve_movement(&mut m, &mut p, now);
                            self.positions.set(i, Some(p));
                            self.movements.set(i, Some(m));
                            match ev {
                                Some(ev) => {
                                    let mut aslot: Option<Animation> = None;
                                    self.animations.set_and_swap(i, &mut aslot);
                                    let restored = match aslot {
                                        Some(mut a) => {
                                            a.animation_queue.push_back(AnimationEvent::Position(ev));
                                            Some(a)
                                        },
                                        None => None,
                                    };
                                    self.animations.set(i, restored);
                                },
                                None => {},
                            }
                        },
                        None => {
                            self.movements.set(i, None);
                        },
                    }
                },
                None => {},
            }
            proof {
                assert(self.movement_resolved(old(self), i as int, now));
                assert forall|j: int| 0 <= j < i implies #[trigger] self.movement_resolved(old(self), j, now) by {
                    assert(pre.movement_resolved(old(self), j, now));
                    assert(self.movements@[j] == pre.movements@[j]);
                    assert(self.positions@[j] == pre.positions@[j]);
                    assert(self.animations@[j] == pre.animations@[j]);
                }
                assert forall|j: int| i < j < self.movements@.len() implies self.movements@[j]
                        == old(self).movements@[j] && self.positions@[j] == old(self).positions@[j]
                        && self.animations@[j] == old(self).animations@[j] by {
                    assert(pre.movements@[j] == old(self).movements@[j]);
                    assert(pre.positions@[j] == old(self).positions@[j]);
                    assert(pre.animations@[j] == old(self).animations@[j]);
                    assert(self.movements@[j] == pre.movements@[j]);
                    assert(self.positions@[j] == pre.positions@[j]);
                    assert(self.animations@[j] == pre.animations@[j]);
                }
            }
            i = i + 1;
        }
    }

    /// Animation aging: every entity with Animation drops the front event of
    /// its queue once `now` has reached that event's end.
    pub fn run_process_animation(&mut self, now: u64)
        requires
            old(self).wf(),
        ensures
            final(self).wf(),
            final(self).len_spec() == old(self).len_spec(),
            forall|id: int| #[trigger] final(self).animation_aged(old(self), id, now),
    {
        let mut i: usize = 0;
        while i < self.animations.len()
            invariant
                self.wf(),
                self.alive@ == old(self).alive@,
                self.positions@ == old(self).positions@,
                self.movements@ == old(self).movements@,
                self.sprites@ == old(self).sprites@,
                self.players@ == old(self).players@,
                self.solids@ == old(self).solids@,
                self.plantae@ == old(self).plantae@,
                self.animations@.len() == old(self).animations@.len(),
                0 <= i <= self.animations@.len(),
                forall|j: int| 0 <= j < i ==> #[trigger] self.animation_aged(old(self), j, now),
                forall|j: int| i <= j < self.animations@.len() ==> #[trigger] self.animations@[j] == old(self).animations@[j],
            decreases self.animations@.len() - i,
        {
            let ghost pre = *self;
            let mut slot: Option<Animation> = None;
            self.animations.set_and_swap(i, &mut slot);
            let restored = match slot {
                Some(mut a) => {
                    age_animation(&mut a, now);
                    Some(a)
                },
                None => None,
            };
            self.animations.set(i, restored);
            proof {
                assert(self.animation_aged(old(self), i as int, now));
                assert forall|j: int| 0 <= j < i implies #[trigger] self.animation_aged(old(self), j, now) by {
                    assert(pre.animation_aged(old(self), j, now));
                    assert(self.animations@[j] == pre.animations@[j]);
                }
            }
            i = i + 1;
        }
    }

    /// Whether every entity with Movement and Position can take its next step
    /// without leaving the range of `i32`.
    pub fn check_steps_fit(&self) -> (r: bool)
        requires
            self.wf(),
        ensures
            r == self.steps_fit(),
    {
        let mut i: usize = 0;
        while i < self.movements.len()
            invariant
                self.wf(),
                0 <= i <= self.movements@.len(),
                forall|id: int|
                    0 <= id < i ==> (#[trigger] self.movement_at(id)).is_some() && self.position_at(id).is_some()
                        ==> step_fits(self.movement_at(id).unwrap().move_queue@, self.position_at(id).unwrap()),
            decreases self.movements@.len() - i,
        {
            match (&self.movements[i], self.positions[i]) {
                (Some(m), Some(p)) => {
                    if m.move_queue.len() > 0 {
                        let fits = match m.move_queue[0] {
                            MoveAction::Up => p.y > i32::MIN,
                            MoveAction::Down => p.y < i32::MAX,
                            MoveAction::Left => p.x > i32::MIN,
                            MoveAction::Right => p.x < i32::MAX,
                        };
                        if !fits {
                            assert(!step_fits(self.movement_at(i as int).unwrap().move_queue@, self.position_at(i as int).unwrap()));
                            return false;
                        }
                    }
                },
                _ => {},
            }
            i = i + 1;
        }
        true
    }
}

/// After `n` movement resolutions in a row, entity `id` holds the queue and
/// coordinate that `n` resolution steps give.
proof fn lemma_resolutions_follow_steps(ws: Seq<World>, id: int, times: Seq<u64>, n: int)
    requires
        ws.len() == times.len() + 1,
        0 <= n < ws.len(),
        ws[0].movement_at(id).is_some(),
        ws[0].position_at(id).is_some(),
        forall|i: int| 0 <= i < times.len() ==> #[trigger] ws[i + 1].movement_resolved(&ws[i], id, times[i]),
    ensures
        ws[n].movement_at(id).is_some(),
        ws[n].position_at(id).is_some(),
        resolve_steps(
            ws[0].movement_at(id).unwrap().move_queue@,
            ws[0].position_at(id).unwrap().x as int,
            ws[0].position_at(id).unwrap().y as int,
            n as nat,
        ) == (
            ws[n].movement_at(id).unwrap().move_queue@,
            ws[n].position_at(id).unwrap().x as int,
            ws[n].position_at(id).unwrap().y as int,
        ),
    decreases n,
{
    if n > 0 {
        lemma_resolutions_follow_steps(ws, id, times, n - 1);
        let i = n - 1;
        assert(ws[i + 1].movement_resolved(&ws[i], id, times[i]));
        lemma_resolve_steps_last(
            ws[0].movement_at(id).unwrap().move_queue@,
            ws[0].position_at(id).unwrap().x as int,
            ws[0].position_at(id).unwrap().y as int,
            (n - 1) as nat,
        );
    }
}

/// An entity whose movement queue holds `N` actions, taken through `N`
/// movement resolutions in a row, ends with an empty queue and its position
/// moved by the vector sum of the actions' deltas.
pub proof fn lemma_world_movement_drains(ws: Seq<World>, id: int, times: Seq<u64>)
    requires
        ws.len() == times.len() + 1,
        ws[0].movement_at(id).is_some(),
        ws[0].position_at(id).is_some(),
        times.len() == ws[0].movement_at(id).unwrap().move_queue@.len(),
        forall|i: int| 0 <= i < times.len() ==> #[trigger] ws[i + 1].movement_resolved(&ws[i], id, times[i]),
    ensures
        ws.last().movement_at(id).is_some(),
        ws.last().movement_at(id).unwrap().move_queue@.len() == 0,
        ws.last().position_at(id).is_some(),
        ws.last().position_at(id).unwrap().x == ws[0].position_at(id).unwrap().x + sum_deltas(
            ws[0].movement_at(id).unwrap().move_queue@,
        ).0,
        ws.last().position_at(id).unwrap().y == ws[0].position_at(id).unwrap().y + sum_deltas(
            ws[0].movement_at(id).unwrap().move_queue@,
        ).1,
{
    let n = times.len() as int;
    lemma_resolutions_follow_steps(ws, id, times, n);
    lemma_resolution_drains_queue(
        ws[0].movement_at(id).unwrap().move_queue@,
        ws[0].position_at(id).unwrap().x as int,
        ws[0].position_at(id).unwrap().y as int,
    );
}

} // verus!
