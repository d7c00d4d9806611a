//! What to tell the observers when an entity leaves the world.

use vstd::prelude::*;
use crate::entity::EntityId;

verus! {

/// Tells observers that entities are gone.
#[derive(Debug, PartialEq, Eq)]
pub struct DestroyEntities {
    pub entity_ids: Vec<i32>,
}

impl Clone for DestroyEntities {
    fn clone(&self) -> (copy: DestroyEntities)
        ensures
            copy.entity_ids@ == self.entity_ids@,
    {
        let mut entity_ids: Vec<i32> = Vec::new();
        let mut i: usize = 0;
        while i < self.entity_ids.len()
            invariant
                i <= self.entity_ids@.len(),
                entity_ids@ == self.entity_ids@.take(i as int),
            decreases self.entity_ids@.len() - i,
        {
            entity_ids.push(self.entity_ids[i]);
            proof {
                assert(self.entity_ids@.take(i + 1) =~= self.entity_ids@.take(i as int).push(
                    self.entity_ids@[i as int],
                ));
            }
            i = i + 1;
        }
        proof {
            assert(self.entity_ids@.take(i as int) =~= self.entity_ids@);
        }
        DestroyEntities { entity_ids }
    }
}

/// What a player info packet says of a player.
#[derive(Debug, Clone, Copy, PartialEq, Eq, Structural)]
pub enum PlayerInfoAction {
    /// The player leaves the list of players.
    RemovePlayer,
}

/// Tells observers about a player in the list of players.
#[derive(Debug, Clone, Copy, PartialEq, Eq, Structural)]
pub struct PlayerInfo {
    pub action: PlayerInfoAction,
    /// The 128-bit identifier of the player.
    pub uuid: u128,
}

/// What is sent when an entity leaves the world.
#[derive(Debug, PartialEq, Eq)]
pub struct DespawnBroadcasts {
    /// For those who could see the entity, but not for the entity itself.
    pub destroy: DestroyEntities,
    /// For everyone, where the entity was a player.
    pub player_info: Option<PlayerInfo>,
}

/// The player info packet for an entity that leaves: one that removes the
/// player where the entity was a player, and none where it was not.
pub open spec fn removal_info(player: Option<u128>) -> Option<PlayerInfo> {
    match player {
        Some(uuid) => Some(PlayerInfo { action: PlayerInfoAction::RemovePlayer, uuid }),
        None => None,
    }
}

/// What to send when the entity `id` leaves the world. `player` holds the
/// identifier of the player where the entity was one.
///
/// Those who could see the entity are told that it is gone; the entity
/// itself is not. Where it was a player, everyone is told to take the
/// player off the list of players.
pub fn on_entity_despawn_broadcast_despawn(id: EntityId, player: Option<u128>) -> (broadcasts:
    DespawnBroadcasts)
    ensures
        broadcasts.destroy.entity_ids@ == seq![id.0],
        broadcasts.player_info == removal_info(player),
{
    let mut entity_ids: Vec<i32> = Vec::new();
    entity_ids.push(id.0);
    let player_info = match player {
        Some(uuid) => Some(PlayerInfo { action: PlayerInfoAction::RemovePlayer, uuid }),
        None => None,
    };
    DespawnBroadcasts { destroy: DestroyEntities { entity_ids }, player_info }
}

} // verus!
