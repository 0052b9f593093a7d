use vstd::prelude::*;
use crate::level::world::{World, entity_id_slots, is_first_free_address};
use crate::prefabs::{Prefab, every_walk_packs};
use crate::tables::PlayerMap;

pub mod world;

verus! {

/// The name an entity's identifier is stored under among its attributes.
pub open spec fn id_attr_name() -> Seq<char> {
    seq!['i', 'd']
}

/// A level: its name, its world buffer, and the players placed in it by address.
pub struct Level {
    pub name: String,
    world: World,
    players: PlayerMap,
}

impl Level {
    /// The level's name.
    pub closed spec fn level_name(&self) -> String {
        self.name
    }

    /// The level's world buffer.
    pub closed spec fn world_view(&self) -> World {
        self.world
    }

    /// The players, by the address of their entity in the world buffer.
    pub closed spec fn players(&self) -> Map<u16, Prefab> {
        self.players@
    }

    /// The world buffer is well formed.
    pub open spec fn wf(&self) -> bool {
        self.world_view().wf()
    }

    /// A level named `name` with a world of zeros and no players.
    pub fn new(name: String) -> (r: Level)
        ensures
            r.wf(),
            r.level_name() == name,
            r.world_view().current() == Seq::new(crate::constants::WORLD_LEN as nat, |i: int| 0u16),
            r.world_view().pending() == Seq::new(crate::constants::WORLD_LEN as nat, |i: int| 0u16),
            r.players() == Map::<u16, Prefab>::empty(),
    {
        Level { name, world: World::new(), players: PlayerMap::new() }
    }

    /// Places `player` in the level under the identifier `id`, which no entity of
    /// the world holds: claims the first free entity slot for it, gives the player
    /// that slot's address and the identifier, records the identifier as its "id"
    /// attribute, and files it under the address. The identifier is drawn at random
    /// by the caller, until it is fresh.
    pub fn add_player(&mut self, player: Prefab, id: u16)
        requires
            old(self).wf(),
            player.wf(),
            every_walk_packs(player.layout().widths()),
            !entity_id_slots(old(self).world_view().pending()).contains(id),
        ensures
            final(self).wf(),
            final(self).level_name() == old(self).level_name(),
            final(self).world_view().current() == old(self).world_view().current(),
            exists|address: u16|
                #![trigger final(self).players()[address]]
                {
                    &&& is_first_free_address(old(self).world_view().pending(), address as int)
                    &&& final(self).world_view().pending() == old(self).world_view().pending().update(
                        address as int,
                        id,
                    )
                    &&& final(self).players() == old(self).players().insert(address, final(self).players()[address])
                    &&& final(self).players()[address].id() == id
                    &&& final(self).players()[address].addr() == address
                    &&& final(self).players()[address].attr_values() == player.attr_values().insert(id_attr_name(), id)
                    &&& final(self).players()[address].layout().widths() == player.layout().widths()
                },
    {
        let (address, id) = self.world.claim_slot(id);
        self.place_player(player, address, id);
    }

    /// The level's world buffer.
    pub fn world(&self) -> (r: &World)
        ensures
            *r == self.world_view(),
    {
        &self.world
    }

    /// Gives `player` the address and identifier of a claimed slot, records the
    /// identifier as its "id" attribute, and files it under the address.
    fn place_player(&mut self, player: Prefab, address: u16, id: u16)
        requires
            player.wf(),
            every_walk_packs(player.layout().widths()),
        ensures
            final(self).world_view() == old(self).world_view(),
            final(self).level_name() == old(self).level_name(),
            final(self).players() == old(self).players().insert(address, final(self).players()[address]),
            final(self).players()[address].id() == id,
            final(self).players()[address].addr() == address,
            final(self).players()[address].attr_values() == player.attr_values().insert(id_attr_name(), id),
            final(self).players()[address].layout().widths() == player.layout().widths(),
    {
        let mut player = player;
        player.set_entity_id(id);
        player.set_entity_addr(address);
        let key = "id".to_owned();
        proof {
            reveal_strlit("id");
            assert(key@ =~= id_attr_name());
        }
        player.write_attr(key, id);
        self.players.insert(address, player);
    }

    /// A level's tick does nothing yet.
    pub fn tick(&self) {
    }
}

} // verus!
