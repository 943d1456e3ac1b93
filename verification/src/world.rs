//! The part of the world that the engine reads: the catalogs of blocks,
//! entity kinds and items, and the tiles on which an entity waits to be
//! spawned.

use crate::position::{hash, position_key};
use crate::stats::{Stats, StatsModel};
use std::collections::HashMap;
use vstd::prelude::*;

verus! {

/// One kind of entity: its name and its definition.
pub struct EntityKind {
    pub name: String,
    pub properties: Stats,
}

/// The items of one tier.
pub struct Tier {
    pub level: i64,
    pub items: Vec<String>,
}

/// The world as the engine sees it.
pub struct World {
    blocks: Vec<Stats>,
    kinds: Vec<EntityKind>,
    items: Stats,
    tiers: Vec<Tier>,
    placed: HashMap<u32, usize>,
    player_defaults: Stats,
    spawn_x: u16,
    spawn_y: u16,
}

/// What a world stands for.
pub struct WorldModel {
    /// The definitions of the blocks, by block id.
    pub blocks: Seq<StatsModel>,
    /// The names and definitions of the entity kinds, by entity id.
    pub kinds: Seq<(Seq<char>, StatsModel)>,
    /// The item catalog: one nested store for each item.
    pub items: StatsModel,
    /// The tiers and the names of the items in each.
    pub tiers: Seq<(i64, Seq<Seq<char>>)>,
    /// The tiles on which an entity waits: position key to entity id.
    pub placed: Map<u32, usize>,
    /// The attributes that a new player starts with.
    pub player_defaults: StatsModel,
    /// The tile on which a player enters the world.
    pub spawn_x: u16,
    pub spawn_y: u16,
}

/// The names in a list of strings.
pub open spec fn names_model(names: Seq<String>) -> Seq<Seq<char>> {
    Seq::new(names.len(), |i: int| names[i]@)
}

impl View for World {
    type V = WorldModel;

    closed spec fn view(&self) -> WorldModel {
        WorldModel {
            blocks: Seq::new(self.blocks@.len(), |i: int| self.blocks@[i]@),
            kinds: Seq::new(
                self.kinds@.len(),
                |i: int| (self.kinds@[i].name@, self.kinds@[i].properties@),
            ),
            items: self.items@,
            tiers: Seq::new(
                self.tiers@.len(),
                |i: int| (self.tiers@[i].level, names_model(self.tiers@[i].items@)),
            ),
            placed: self.placed@,
            player_defaults: self.player_defaults@,
            spawn_x: self.spawn_x,
            spawn_y: self.spawn_y,
        }
    }
}

/// The index of the first tier of the given level, or the number of tiers
/// where there is none.
pub open spec fn first_tier(tiers: Seq<(i64, Seq<Seq<char>>)>, level: i64) -> int
    decreases tiers.len(),
{
    if tiers.len() == 0 {
        0
    } else if tiers[0].0 == level {
        0
    } else {
        1 + first_tier(tiers.drop_first(), level)
    }
}

/// The items of the given tier, if the world has that tier.
pub open spec fn tier_items(tiers: Seq<(i64, Seq<Seq<char>>)>, level: i64) -> Option<
    Seq<Seq<char>>,
> {
    if first_tier(tiers, level) < tiers.len() {
        Some(tiers[first_tier(tiers, level)].1)
    } else {
        None
    }
}

/// The kind of entity that waits on the tile `(x, y)`, if one does and the
/// world knows its kind.
pub open spec fn kind_at(w: WorldModel, x: u16, y: u16) -> Option<(Seq<char>, StatsModel)> {
    let key = position_key(x as int, y as int) as u32;
    if w.placed.contains_key(key) && w.placed[key] < w.kinds.len() {
        Some(w.kinds[w.placed[key] as int])
    } else {
        None
    }
}

/// The name of the kind of entity that waits on the tile `(x, y)`.
pub open spec fn waiting_name(w: WorldModel, x: u16, y: u16) -> Seq<char> {
    let kind = kind_at(w, x, y)->0;
    kind.0
}

/// The definition of the kind of entity that waits on the tile `(x, y)`.
pub open spec fn waiting_definition(w: WorldModel, x: u16, y: u16) -> StatsModel {
    let kind = kind_at(w, x, y)->0;
    kind.1
}

/// `first_tier` is in range, names a tier of the level, and no earlier
/// tier has that level.
pub proof fn lemma_first_tier(tiers: Seq<(i64, Seq<Seq<char>>)>, level: i64)
    ensures
        0 <= first_tier(tiers, level) <= tiers.len(),
        forall|j: int| 0 <= j < first_tier(tiers, level) ==> (#[trigger] tiers[j]).0 != level,
        first_tier(tiers, level) < tiers.len() ==> tiers[first_tier(tiers, level)].0 == level,
    decreases tiers.len(),
{
    if tiers.len() != 0 && tiers[0].0 != level {
        let rest = tiers.drop_first();
        lemma_first_tier(rest, level);
        assert forall|j: int| 0 <= j < first_tier(tiers, level) implies (#[trigger] tiers[j]).0
            != level by {
            if j > 0 {
                assert(tiers[j] == rest[j - 1]);
            }
        }
    }
}

/// The first tier of a level stands at `i` if one of that level stands
/// there and none before.
pub proof fn lemma_first_tier_is(tiers: Seq<(i64, Seq<Seq<char>>)>, level: i64, i: int)
    requires
        0 <= i <= tiers.len(),
        forall|j: int| 0 <= j < i ==> (#[trigger] tiers[j]).0 != level,
        i < tiers.len() ==> tiers[i].0 == level,
    ensures
        first_tier(tiers, level) == i,
{
    lemma_first_tier(tiers, level);
    let f = first_tier(tiers, level);
    if f < i {
        assert(tiers[f].0 != level);
    }
    if i < f {
        assert(tiers[i].0 != level);
    }
}

impl World {
    /// A world with the given catalogs, on none of whose tiles an entity waits.
    pub fn new(
        blocks: Vec<Stats>,
        kinds: Vec<EntityKind>,
        items: Stats,
        tiers: Vec<Tier>,
        player_defaults: Stats,
        spawn_x: u16,
        spawn_y: u16,
    ) -> (w: World)
        ensures
            w@.blocks == Seq::new(blocks@.len(), |i: int| blocks@[i]@),
            w@.kinds == Seq::new(kinds@.len(), |i: int| (kinds@[i].name@, kinds@[i].properties@)),
            w@.items == items@,
            w@.tiers == Seq::new(
                tiers@.len(),
                |i: int| (tiers@[i].level, names_model(tiers@[i].items@)),
            ),
            w@.placed == Map::<u32, usize>::empty(),
            w@.player_defaults == player_defaults@,
            w@.spawn_x == spawn_x,
            w@.spawn_y == spawn_y,
    {
        World {
            blocks,
            kinds,
            items,
            tiers,
            placed: HashMap::new(),
            player_defaults,
            spawn_x,
            spawn_y,
        }
    }

    /// The number of block ids.
    pub fn max_block_id(&self) -> (n: usize)
        ensures
            n == self@.blocks.len(),
    {
        self.blocks.len()
    }

    /// The number of entity ids.
    pub fn max_entity_id(&self) -> (n: usize)
        ensures
            n == self@.kinds.len(),
    {
        self.kinds.len()
    }

    /// The definition of the block with the id `id`.
    pub fn get_block_by_id(&self, id: usize) -> (block: &Stats)
        requires
            id < self@.blocks.len(),
        ensures
            block@ == self@.blocks[id as int],
    {
        &self.blocks[id]
    }

    /// The definition of the entity kind with the id `id`.
    pub fn get_entity_properties_by_id(&self, id: usize) -> (properties: &Stats)
        requires
            id < self@.kinds.len(),
        ensures
            properties@ == self@.kinds[id as int].1,
    {
        &self.kinds[id].properties
    }

    /// The item catalog.
    pub fn items(&self) -> (items: &Stats)
        ensures
            items@ == self@.items,
    {
        &self.items
    }

    /// The attributes that a new player starts with.
    pub fn player_defaults(&self) -> (data: &Stats)
        ensures
            data@ == self@.player_defaults,
    {
        &self.player_defaults
    }

    /// The tile on which a player enters the world.
    pub fn spawn_point(&self) -> (tile: (u16, u16))
        ensures
            tile.0 == self@.spawn_x,
            tile.1 == self@.spawn_y,
    {
        (self.spawn_x, self.spawn_y)
    }

    /// The names of the items of the given tier, if the world has that tier.
    pub fn items_tiered(&self, level: i64) -> (items: Option<&Vec<String>>)
        ensures
            match items {
                Some(names) => tier_items(self@.tiers, level) == Some(names_model(names@)),
                None => tier_items(self@.tiers, level) is None,
            },
    {
        let mut i: usize = 0;
        while i < self.tiers.len()
            invariant
                i <= self.tiers@.len(),
                forall|j: int| 0 <= j < i ==> (#[trigger] self@.tiers[j]).0 != level,
            decreases self.tiers@.len() - i,
        {
            if self.tiers[i].level == level {
                proof {
                    lemma_first_tier_is(self@.tiers, level, i as int);
                }
                return Some(&self.tiers[i].items);
            }
            i = i + 1;
        }
        proof {
            lemma_first_tier_is(self@.tiers, level, i as int);
        }
        None
    }

    /// Lets an entity of the kind `id` wait on the tile `(x, y)`.
    pub fn place_entity(&mut self, x: u16, y: u16, id: usize)
        ensures
            final(self)@ == (WorldModel {
                placed: old(self)@.placed.insert(position_key(x as int, y as int) as u32, id),
                ..old(self)@
            }),
    {
        self.placed.insert(hash(x, y), id);
    }

    /// Whether an entity waits on the tile `(x, y)`.
    pub fn has_entity(&self, x: u16, y: u16) -> (waits: bool)
        ensures
            waits == kind_at(self@, x, y).is_some(),
    {
        match self.placed.get(&hash(x, y)) {
            Some(id) => *id < self.kinds.len(),
            None => false,
        }
    }

    /// The name of the entity that waits on the tile `(x, y)`.
    pub fn get_entity_name(&self, x: u16, y: u16) -> (name: Option<&String>)
        ensures
            match name {
                Some(n) => kind_at(self@, x, y).is_some() && n@ == kind_at(self@, x, y).unwrap().0,
                None => kind_at(self@, x, y).is_none(),
            },
    {
        match self.placed.get(&hash(x, y)) {
            Some(id) => if *id < self.kinds.len() {
                Some(&self.kinds[*id].name)
            } else {
                None
            },
            None => None,
        }
    }

    /// The definition of the entity that waits on the tile `(x, y)`.
    pub fn get_entity_properties(&self, x: u16, y: u16) -> (properties: Option<&Stats>)
        ensures
            match properties {
                Some(p) => kind_at(self@, x, y).is_some() && p@ == kind_at(self@, x, y).unwrap().1,
                None => kind_at(self@, x, y).is_none(),
            },
    {
        match self.placed.get(&hash(x, y)) {
            Some(id) => if *id < self.kinds.len() {
                Some(&self.kinds[*id].properties)
            } else {
                None
            },
            None => None,
        }
    }

    /// Clears the tile `(x, y)`: no entity waits on it any more.
    pub fn remove_entity(&mut self, x: u16, y: u16)
        ensures
            final(self)@ == (WorldModel {
                placed: old(self)@.placed.remove(position_key(x as int, y as int) as u32),
                ..old(self)@
            }),
    {
        self.placed.remove(&hash(x, y));
    }
}

} // verus!
