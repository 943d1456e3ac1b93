//! The shared state that a handler works on, seen as one value: the live
//! entities, the player table and the world.

use crate::entities::{tile_key, EntityModel, SpawnedEntities};
use crate::error::Error;
use crate::player::{table_model, Player, PlayerModel};
use crate::playerout::{PacketModel, PlayerOut};
use crate::world::{World, WorldModel};
use vstd::prelude::*;

verus! {

/// What the shared state stands for.
pub struct Scene {
    pub entities: Map<u32, EntityModel>,
    pub players: Seq<Option<PlayerModel>>,
    pub world: WorldModel,
}

/// What a handler leaves behind: the shared state, and the packets for
/// the player who gave the command.
pub struct Outcome {
    pub scene: Scene,
    pub out: Seq<PacketModel>,
}

/// The shared state that the three structures stand for together.
pub open spec fn scene_of(entities: SpawnedEntities, players: Vec<Option<Player>>, world: World)
    -> Scene {
    Scene { entities: entities@, players: table_model(players@), world: world@ }
}

/// The player with the id `id`.
pub open spec fn player_at(players: Seq<Option<PlayerModel>>, id: u8) -> Result<
    PlayerModel,
    Error,
> {
    if id < players.len() && players[id as int] is Some {
        Ok(players[id as int]->0)
    } else {
        Err(Error::NoSuchPlayer)
    }
}

/// The live entity on the tile `(x, y)`.
pub open spec fn entity_at(entities: Map<u32, EntityModel>, x: u16, y: u16) -> Result<
    EntityModel,
    Error,
> {
    if entities.contains_key(tile_key(x, y)) {
        Ok(entities[tile_key(x, y)])
    } else {
        Err(Error::NoSuchEntity)
    }
}

/// The scene after the player with the id `id` is replaced.
pub open spec fn with_player(s: Scene, id: u8, p: PlayerModel) -> Scene {
    Scene { players: s.players.update(id as int, Some(p)), ..s }
}

/// The scene after the live entity on the tile `(x, y)` is replaced.
pub open spec fn with_entity(s: Scene, x: u16, y: u16, e: EntityModel) -> Scene {
    Scene { entities: s.entities.insert(tile_key(x, y), e), ..s }
}

/// The scene after the entity on the tile `(x, y)` is gone: it no longer
/// lives, and none waits there to be spawned again.
pub open spec fn without_entity(s: Scene, x: u16, y: u16) -> Scene {
    Scene {
        entities: s.entities.remove(tile_key(x, y)),
        world: WorldModel { placed: s.world.placed.remove(tile_key(x, y)), ..s.world },
        ..s
    }
}

/// Whether two scenes are the same.
pub open spec fn same_scene(a: Scene, b: Scene) -> bool {
    &&& a.entities =~= b.entities
    &&& a.players =~= b.players
    &&& a.world.blocks =~= b.world.blocks
    &&& a.world.kinds =~= b.world.kinds
    &&& a.world.items =~= b.world.items
    &&& a.world.tiers =~= b.world.tiers
    &&& a.world.placed =~= b.world.placed
    &&& a.world.player_defaults =~= b.world.player_defaults
    &&& a.world.spawn_x == b.world.spawn_x
    &&& a.world.spawn_y == b.world.spawn_y
}

/// Whether a handler did what `expected` says: on success its packets and
/// the scene are as expected, and on failure it reports the expected error
/// and the scene is as it was before.
pub open spec fn settles(
    before: Scene,
    after: Scene,
    r: Result<PlayerOut, Error>,
    expected: Result<Outcome, Error>,
) -> bool {
    match expected {
        Ok(o) => r is Ok && r->Ok_0@ =~= o.out && same_scene(after, o.scene),
        Err(e) => r is Err && r->Err_0 == e && same_scene(after, before),
    }
}

/// The position of the player with the id `player_id`.
pub fn position_of(players: &Vec<Option<Player>>, player_id: u8) -> (r: Result<(u16, u16), Error>)
    ensures
        match player_at(table_model(players@), player_id) {
            Ok(p) => r == Ok::<(u16, u16), Error>((p.x, p.y)),
            Err(e) => r == Err::<(u16, u16), Error>(e),
        },
{
    let id = player_id as usize;
    if id >= players.len() {
        return Err(Error::NoSuchPlayer);
    }
    match &players[id] {
        Some(p) => Ok((p.x(), p.y())),
        None => Err(Error::NoSuchPlayer),
    }
}

} // verus!
