//! Factories for the named entity archetypes.
use crate::components::{Movement, MoveAction, Position, Sprite, Tile};
use crate::world::{Bundle, Entity, World};
use vstd::prelude::*;

verus! {

/// Creates the player: a position, a player-owned movement queue and its sprite.
pub fn create_player(world: &mut World, x: i32, y: i32) -> (e: Entity)
    requires
        old(world).wf(),
        old(world).len_spec() < usize::MAX,
    ensures
        final(world).wf(),
        e.id == old(world).len_spec(),
        final(world).len_spec() == old(world).len_spec() + 1,
        final(world).alive_spec(e.id as int),
        final(world).position_at(e.id as int) == Some(Position { x, y }),
        final(world).movement_at(e.id as int).is_some(),
        final(world).movement_at(e.id as int).unwrap().player_owned,
        final(world).movement_at(e.id as int).unwrap().move_queue@ == Seq::<MoveAction>::empty(),
        final(world).sprite_at(e.id as int) == Some(Sprite { tile: Tile { sprite_layer: 1, sprite_id: 5 } }),
        final(world).animation_at(e.id as int).is_none(),
        final(world).player_at(e.id as int).is_none(),
        final(world).solid_at(e.id as int).is_none(),
        final(world).plantae_at(e.id as int).is_none(),
        forall|id: int| id != e.id ==> #[trigger] final(world).same_entity(old(world), id),
{
    let mut bundle = Bundle::new();
    bundle.position = Some(Position::new(x, y));
    bundle.movement = Some(Movement::new(true));
    bundle.sprite = Some(Sprite::new(1, 5));
    world.create_entity(bundle)
}

} // verus!
