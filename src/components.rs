//! Component records attached to entities, and the tile value they render as.
use std::collections::VecDeque;
use vstd::prelude::*;

verus! {

/// How long the visual transition of one movement step lasts, in milliseconds.
pub const MOVE_TRANSITION_MILLIS: u64 = 200;

/// A renderable unit: a visual layer and a sprite index within that layer.
#[derive(Clone, Copy, Debug, PartialEq, Eq, Structural)]
pub struct Tile {
    pub sprite_layer: i32,
    pub sprite_id: i32,
}

/// Marker for entities controlled by the player.
#[derive(Clone, Copy, Debug, PartialEq, Eq, Structural)]
pub struct Player {}

/// An entity's logical grid coordinate.
#[derive(Clone, Copy, Debug, PartialEq, Eq, Structural)]
pub struct Position {
    pub x: i32,
    pub y: i32,
}

impl Position {
    pub fn new(x: i32, y: i32) -> (r: Self)
        ensures
            r.x == x,
            r.y == y,
    {
        Position { x, y }
    }
}

/// The visual representation of an entity.
#[derive(Clone, Copy, Debug, PartialEq, Eq, Structural)]
pub struct Sprite {
    pub tile: Tile,
}

impl Sprite {
    pub fn new(sprite_layer: i32, sprite_id: i32) -> (r: Sprite)
        ensures
            r.tile.sprite_layer == sprite_layer,
            r.tile.sprite_id == sprite_id,
    {
        Sprite { tile: Tile { sprite_layer, sprite_id } }
    }
}

/// Marker for entities that block movement.
#[derive(Clone, Copy, Debug, PartialEq, Eq, Structural)]
pub struct Solid {}

/// Marker for entities that grow.
#[derive(Clone, Copy, Debug, PartialEq, Eq, Structural)]
pub struct Plantae {}

impl Plantae {
    pub fn new() -> (r: Self)
        ensures
            r == (Plantae {}),
    {
        Plantae {}
    }
}

/// One queued step of movement intent.
#[derive(Clone, Copy, Debug, PartialEq, Eq, Structural)]
pub enum MoveAction {
    Up,
    Down,
    Left,
    Right,
}

/// The unit change of coordinate that an action makes.
pub open spec fn action_delta(a: MoveAction) -> (int, int) {
    match a {
        MoveAction::Up => (0, -1),
        MoveAction::Down => (0, 1),
        MoveAction::Left => (-1, 0),
        MoveAction::Right => (1, 0),
    }
}

/// The coordinate reached from `(x, y)` by the action `a`.
pub open spec fn action_target(x: int, y: int, a: MoveAction) -> (int, int) {
    (x + action_delta(a).0, y + action_delta(a).1)
}

/// The vector sum of the deltas of a sequence of actions.
pub open spec fn sum_deltas(s: Seq<MoveAction>) -> (int, int)
    decreases s.len(),
{
    if s.len() == 0 {
        (0, 0)
    } else {
        let rest = sum_deltas(s.drop_first());
        (action_delta(s[0]).0 + rest.0, action_delta(s[0]).1 + rest.1)
    }
}

/// Pending movement intent: whether the player owns the entity, and a FIFO of actions.
pub struct Movement {
    pub player_owned: bool,
    pub move_queue: VecDeque<MoveAction>,
}

impl Movement {
    pub fn new(player_owned: bool) -> (r: Self)
        ensures
            r.player_owned == player_owned,
            r.move_queue@ == Seq::<MoveAction>::empty(),
    {
        Movement { player_owned, move_queue: VecDeque::new() }
    }
}

/// A timed visual offset; instants are milliseconds on the caller's clock.
#[derive(Clone, Copy, Debug)]
pub struct AnimationEventPosition {
    pub offset: (i32, i32),
    pub start: u64,
    pub end: u64,
}

#[derive(Clone, Copy, Debug)]
pub enum AnimationEvent {
    Position(AnimationEventPosition),
}

impl AnimationEvent {
    pub open spec fn end_spec(self) -> u64 {
        match self {
            AnimationEvent::Position(p) => p.end,
        }
    }

    /// The instant at which the event's window closes.
    pub fn end(&self) -> (r: u64)
        ensures
            r == self.end_spec(),
    {
        match self {
            AnimationEvent::Position(p) => p.end,
        }
    }
}

/// An event whose window holds `now`, as the renderer blends it: the offset is
/// scaled by `remaining / total`.
#[derive(Clone, Copy, Debug, PartialEq, Eq, Structural)]
pub struct InFlight {
    pub offset_x: i32,
    pub offset_y: i32,
    /// Milliseconds from `now` to the end of the window.
    pub remaining: u64,
    /// Length of the window in milliseconds; never zero.
    pub total: u64,
}

/// The window `[start, end)` of the event holds `now`.
pub open spec fn in_window(e: AnimationEvent, now: u64) -> bool {
    match e {
        AnimationEvent::Position(p) => p.start <= now && now < p.end,
    }
}

/// What the renderer reads of an in-flight event.
pub open spec fn blend_of(e: AnimationEvent, now: u64) -> InFlight {
    match e {
        AnimationEvent::Position(p) => InFlight {
            offset_x: p.offset.0,
            offset_y: p.offset.1,
            remaining: (p.end - now) as u64,
            total: (p.end - p.start) as u64,
        },
    }
}

/// The events of `q` whose window holds `now`, in queue order.
pub open spec fn in_flight_of(q: Seq<AnimationEvent>, now: u64) -> Seq<InFlight>
    decreases q.len(),
{
    if q.len() == 0 {
        Seq::empty()
    } else {
        let rest = in_flight_of(q.drop_last(), now);
        if in_window(q.last(), now) {
            rest.push(blend_of(q.last(), now))
        } else {
            rest
        }
    }
}

/// In-flight interpolation state: an ordered queue of timed offset events.
pub struct Animation {
    pub animation_queue: VecDeque<AnimationEvent>,
}

impl Animation {
    pub fn new() -> (r: Self)
        ensures
            r.animation_queue@ == Seq::<AnimationEvent>::empty(),
    {
        Animation { animation_queue: VecDeque::new() }
    }

    /// The events whose window `[start, end)` holds `now`, each with the
    /// time left in its window and the window's length.
    pub fn in_flight(&self, now: u64) -> (r: Vec<InFlight>)
        ensures
            r@ == in_flight_of(self.animation_queue@, now),
            forall|i: int| 0 <= i < r@.len() ==> 0 < (#[trigger] r@[i]).total && r@[i].remaining <= r@[i].total,
    {
        let mut r: Vec<InFlight> = Vec::new();
        let mut i: usize = 0;
        while i < self.animation_queue.len()
            invariant
                0 <= i <= self.animation_queue@.len(),
                r@ == in_flight_of(self.animation_queue@.take(i as int), now),
                forall|j: int| 0 <= j < r@.len() ==> 0 < (#[trigger] r@[j]).total && r@[j].remaining <= r@[j].total,
            decreases self.animation_queue@.len() - i,
        {
            let ghost q = self.animation_queue@;
            proof {
                assert(q.take(i + 1).drop_last() =~= q.take(i as int));
                assert(q.take(i + 1).last() == q[i as int]);
            }
            match self.animation_queue[i] {
                AnimationEvent::Position(p) => {
                    if p.start <= now && now < p.end {
                        r.push(InFlight {
                            offset_x: p.offset.0,
                            offset_y: p.offset.1,
                            remaining: p.end - now,
                            total: p.end - p.start,
                        });
                    }
                },
            }
            i = i + 1;
        }
        proof {
            assert(self.animation_queue@.take(i as int) =~= self.animation_queue@);
        }
        r
    }
}

} // verus!
