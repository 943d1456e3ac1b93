//! Live entities: the instances that are spawned when a player first steps
//! on a tile on which one waits, and the table that holds them.

use crate::dice::random_in;
use crate::error::Error;
use crate::loot::{
    get_items, get_random_items, pool_of, possible_drops, possible_pick, stats_result,
};
use crate::position::{hash, position_key};
use crate::stats::{
    list_model, model_box, model_get, model_has, model_int, model_int_or, model_set,
    model_string, value_int, value_list, Stats, StatsModel, Value, ValueModel,
};
use crate::text::str_eq;
use crate::world::{World, WorldModel};
use std::collections::HashMap;
use vstd::prelude::*;

verus! {

/// What a live entity stands for.
pub struct EntityModel {
    /// The tile on which the entity stands.
    pub x: u16,
    pub y: u16,
    /// The entity's name.
    pub name: Seq<char>,
    /// The tag of the entity's type: `mob`, `trading_mob` or `chest`.
    pub entity_type: Seq<char>,
    /// The data that handlers change: the combat state of a mob, the
    /// contents of a chest.
    pub state: StatsModel,
    /// What the entity was built from and rolled once and for all.
    pub fixed: StatsModel,
    /// Whether the data that handlers change is also what they read: it is
    /// for a chest.
    pub open_state: bool,
}

impl EntityModel {
    /// The data that handlers read.
    pub open spec fn data(self) -> StatsModel {
        if self.open_state {
            self.state
        } else {
            self.fixed
        }
    }

    /// The entity after its changeable data is replaced.
    pub open spec fn with_state(self, state: StatsModel) -> EntityModel {
        EntityModel { state, ..self }
    }
}

/// What every live entity offers to the handlers.
pub trait Spawnable {
    /// What the entity stands for.
    spec fn model(&self) -> EntityModel;

    /// The column of the entity's tile.
    fn x(&self) -> (x: u16)
        ensures
            x == self.model().x,
    ;

    /// The row of the entity's tile.
    fn y(&self) -> (y: u16)
        ensures
            y == self.model().y,
    ;

    /// The data that handlers change.
    fn mut_data(&mut self) -> (data: &mut Stats)
        ensures
            data@ == old(self).model().state,
            final(self).model() == old(self).model().with_state(final(data)@),
    ;

    /// A snapshot of the data that handlers read.
    fn data(&self) -> (data: Stats)
        ensures
            data@ == self.model().data(),
    ;

    /// The entity's name.
    fn name(&self) -> (name: String)
        ensures
            name@ == self.model().name,
    ;

    /// The tag of the entity's type.
    fn entity_type(&self) -> (tag: String)
        ensures
            tag@ == self.model().entity_type,
    ;
}

/// A creature that fights.
pub struct Mob {
    x: u16,
    y: u16,
    entity_type: String,
    base_stats: Stats,
    name: String,
    stats: Stats,
    tools: Stats,
}

/// The data that a mob shows: its definition, with the tools it was given.
pub open spec fn mob_data(base: StatsModel, tools: StatsModel) -> StatsModel {
    model_set(base, "tools"@, ValueModel::Box(tools))
}

impl Spawnable for Mob {
    closed spec fn model(&self) -> EntityModel {
        EntityModel {
            x: self.x,
            y: self.y,
            name: self.name@,
            entity_type: self.entity_type@,
            state: self.stats@,
            fixed: mob_data(self.base_stats@, self.tools@),
            open_state: false,
        }
    }

    fn x(&self) -> (x: u16) {
        self.x
    }

    fn y(&self) -> (y: u16) {
        self.y
    }

    fn mut_data(&mut self) -> (data: &mut Stats) {
        &mut self.stats
    }

    fn data(&self) -> (data: Stats) {
        let mut stats = self.base_stats.clone();
        stats.set("tools", Value::Box(self.tools.clone()));
        stats
    }

    fn name(&self) -> (name: String) {
        self.name.clone()
    }

    fn entity_type(&self) -> (tag: String) {
        self.entity_type.clone()
    }
}

/// What a mob of the definition `stats` stands for when it was given the
/// tools `tools`: its combat state is the store `stats` of the definition.
pub open spec fn mob_model(
    stats: StatsModel,
    x: u16,
    y: u16,
    name: Seq<char>,
    tools: StatsModel,
) -> Result<EntityModel, Error> {
    match model_box(stats, "stats"@) {
        Err(e) => Err(e),
        Ok(state) => Ok(
            EntityModel {
                x,
                y,
                name,
                entity_type: "mob"@,
                state,
                fixed: mob_data(stats, tools),
                open_state: false,
            },
        ),
    }
}

impl Mob {
    /// A mob of the definition `stats` that carries the tools `tools`.
    pub fn with_tools(stats: Stats, x: u16, y: u16, name: String, tools: Stats) -> (r: Result<
        Mob,
        Error,
    >)
        ensures
            match r {
                Ok(m) => mob_model(stats@, x, y, name@, tools@) == Ok::<EntityModel, Error>(
                    m.model(),
                ),
                Err(e) => mob_model(stats@, x, y, name@, tools@) == Err::<EntityModel, Error>(e),
            },
    {
        let state = match stats.get_box("stats") {
            Ok(s) => s.clone(),
            Err(e) => {
                return Err(e);
            },
        };
        Ok(
            Mob {
                x,
                y,
                name,
                stats: state,
                entity_type: "mob".to_owned(),
                tools,
                base_stats: stats,
            },
        )
    }
}

/// A creature that fights and trades.
pub struct TradingMob {
    x: u16,
    y: u16,
    base_stats: Stats,
    stats: Stats,
    trade_items: Stats,
    entity_type: String,
    name: String,
    tools: Stats,
}

/// The data that a trader shows: its definition, with the items it takes,
/// the tools it was given, and the definition once more as it was.
pub open spec fn trader_data(base: StatsModel, trade_items: StatsModel, tools: StatsModel)
    -> StatsModel {
    model_set(
        model_set(
            model_set(base, "trade_items"@, ValueModel::Box(trade_items)),
            "tools"@,
            ValueModel::Box(tools),
        ),
        "base_stats"@,
        ValueModel::Box(base),
    )
}

/// What a trader of the definition `stats` stands for when it takes the
/// items `trade_items` and was given the tools `tools`.
pub open spec fn trader_model(
    stats: StatsModel,
    x: u16,
    y: u16,
    name: Seq<char>,
    trade_items: StatsModel,
    tools: StatsModel,
) -> Result<EntityModel, Error> {
    match model_box(stats, "stats"@) {
        Err(e) => Err(e),
        Ok(state) => Ok(
            EntityModel {
                x,
                y,
                name,
                entity_type: "trading_mob"@,
                state,
                fixed: trader_data(stats, trade_items, tools),
                open_state: false,
            },
        ),
    }
}

impl Spawnable for TradingMob {
    closed spec fn model(&self) -> EntityModel {
        EntityModel {
            x: self.x,
            y: self.y,
            name: self.name@,
            entity_type: self.entity_type@,
            state: self.stats@,
            fixed: trader_data(self.base_stats@, self.trade_items@, self.tools@),
            open_state: false,
        }
    }

    fn x(&self) -> (x: u16) {
        self.x
    }

    fn y(&self) -> (y: u16) {
        self.y
    }

    fn mut_data(&mut self) -> (data: &mut Stats) {
        &mut self.stats
    }

    fn data(&self) -> (data: Stats) {
        let mut stats = self.base_stats.clone();
        stats.set("trade_items", Value::Box(self.trade_items.clone()));
        stats.set("tools", Value::Box(self.tools.clone()));
        stats.set("base_stats", Value::Box(self.base_stats.clone()));
        stats
    }

    fn name(&self) -> (name: String) {
        self.name.clone()
    }

    fn entity_type(&self) -> (tag: String) {
        self.entity_type.clone()
    }
}

impl TradingMob {
    /// A trader of the definition `stats` that takes the items
    /// `trade_items` and carries the tools `tools`.
    pub fn with_goods(
        stats: Stats,
        x: u16,
        y: u16,
        name: String,
        trade_items: Stats,
        tools: Stats,
    ) -> (r: Result<TradingMob, Error>)
        ensures
            match r {
                Ok(m) => trader_model(stats@, x, y, name@, trade_items@, tools@) == Ok::<
                    EntityModel,
                    Error,
                >(m.model()),
                Err(e) => trader_model(stats@, x, y, name@, trade_items@, tools@) == Err::<
                    EntityModel,
                    Error,
                >(e),
            },
    {
        let state = match stats.get_box("stats") {
            Ok(s) => s.clone(),
            Err(e) => {
                return Err(e);
            },
        };
        Ok(
            TradingMob {
                x,
                y,
                stats: state,
                name,
                trade_items,
                entity_type: "trading_mob".to_owned(),
                tools,
                base_stats: stats,
            },
        )
    }
}

/// A chest that hands its contents to whoever opens it.
pub struct LootChest {
    x: u16,
    y: u16,
    name: String,
    items: Stats,
}

/// What a chest with the contents `items` stands for.
pub open spec fn chest_model(x: u16, y: u16, name: Seq<char>, items: StatsModel) -> EntityModel {
    EntityModel {
        x,
        y,
        name,
        entity_type: "chest"@,
        state: items,
        fixed: Seq::empty(),
        open_state: true,
    }
}

impl Spawnable for LootChest {
    closed spec fn model(&self) -> EntityModel {
        chest_model(self.x, self.y, self.name@, self.items@)
    }

    fn x(&self) -> (x: u16) {
        self.x
    }

    fn y(&self) -> (y: u16) {
        self.y
    }

    fn mut_data(&mut self) -> (data: &mut Stats) {
        &mut self.items
    }

    fn data(&self) -> (data: Stats) {
        self.items.clone()
    }

    fn name(&self) -> (name: String) {
        self.name.clone()
    }

    fn entity_type(&self) -> (tag: String) {
        "chest".to_owned()
    }
}

impl LootChest {
    /// A chest with the contents `items`.
    pub fn with_items(x: u16, y: u16, name: String, items: Stats) -> (chest: LootChest)
        ensures
            chest.model() == chest_model(x, y, name@, items@),
    {
        LootChest { x, y, name, items }
    }
}

/// A live entity of any type.
pub enum Entity {
    Mob(Mob),
    TradingMob(TradingMob),
    Chest(LootChest),
}

impl Spawnable for Entity {
    open spec fn model(&self) -> EntityModel {
        match self {
            Entity::Mob(m) => m.model(),
            Entity::TradingMob(m) => m.model(),
            Entity::Chest(c) => c.model(),
        }
    }

    fn x(&self) -> (x: u16) {
        match self {
            Entity::Mob(m) => m.x(),
            Entity::TradingMob(m) => m.x(),
            Entity::Chest(c) => c.x(),
        }
    }

    fn y(&self) -> (y: u16) {
        match self {
            Entity::Mob(m) => m.y(),
            Entity::TradingMob(m) => m.y(),
            Entity::Chest(c) => c.y(),
        }
    }

    fn mut_data(&mut self) -> (data: &mut Stats) {
        match self {
            Entity::Mob(m) => m.mut_data(),
            Entity::TradingMob(m) => m.mut_data(),
            Entity::Chest(c) => c.mut_data(),
        }
    }

    fn data(&self) -> (data: Stats) {
        match self {
            Entity::Mob(m) => m.data(),
            Entity::TradingMob(m) => m.data(),
            Entity::Chest(c) => c.data(),
        }
    }

    fn name(&self) -> (name: String) {
        match self {
            Entity::Mob(m) => m.name(),
            Entity::TradingMob(m) => m.name(),
            Entity::Chest(c) => c.name(),
        }
    }

    fn entity_type(&self) -> (tag: String) {
        match self {
            Entity::Mob(m) => m.entity_type(),
            Entity::TradingMob(m) => m.entity_type(),
            Entity::Chest(c) => c.entity_type(),
        }
    }
}

impl Entity {
    /// The data that handlers change, to be read.
    pub fn state(&self) -> (state: &Stats)
        ensures
            state@ == self.model().state,
    {
        match self {
            Entity::Mob(m) => &m.stats,
            Entity::TradingMob(m) => &m.stats,
            Entity::Chest(c) => &c.items,
        }
    }
}

/// The table of live entities, at most one on each tile.
pub struct SpawnedEntities {
    spawned_entities: HashMap<u32, Entity>,
}

impl View for SpawnedEntities {
    type V = Map<u32, EntityModel>;

    closed spec fn view(&self) -> Map<u32, EntityModel> {
        self.spawned_entities@.map_values(|e: Entity| e.model())
    }
}

/// The key of the tile `(x, y)` in the table.
pub open spec fn tile_key(x: u16, y: u16) -> u32 {
    position_key(x as int, y as int) as u32
}

impl SpawnedEntities {
    /// A table without entities.
    pub fn new() -> (se: SpawnedEntities)
        ensures
            se@ == Map::<u32, EntityModel>::empty(),
    {
        let se = SpawnedEntities { spawned_entities: HashMap::new() };
        assert(se@ =~= Map::<u32, EntityModel>::empty());
        se
    }

    /// Puts `entity` on the tile `(x, y)`, in place of what stood there.
    pub fn put(&mut self, x: u16, y: u16, entity: Entity)
        ensures
            final(self)@ == old(self)@.insert(tile_key(x, y), entity.model()),
    {
        self.spawned_entities.insert(hash(x, y), entity);
        assert(self@ =~= old(self)@.insert(tile_key(x, y), entity.model()));
    }

    /// Takes the entity off the tile `(x, y)` and hands it out.
    pub fn take(&mut self, x: u16, y: u16) -> (entity: Option<Entity>)
        ensures
            final(self)@ == old(self)@.remove(tile_key(x, y)),
            match entity {
                Some(e) => old(self)@.contains_key(tile_key(x, y)) && e.model() == old(
                    self,
                )@[tile_key(x, y)],
                None => !old(self)@.contains_key(tile_key(x, y)),
            },
    {
        let entity = self.spawned_entities.remove(&hash(x, y));
        assert(self@ =~= old(self)@.remove(tile_key(x, y)));
        entity
    }
}

/// Whether a live entity stands on the tile `(x, y)`.
pub fn has_entity(spawned_entities: &SpawnedEntities, x: u16, y: u16) -> (stands: bool)
    ensures
        stands == spawned_entities@.contains_key(tile_key(x, y)),
{
    spawned_entities.spawned_entities.contains_key(&hash(x, y))
}

/// The live entity on the tile `(x, y)`.
pub fn get_entity(se: &SpawnedEntities, x: u16, y: u16) -> (entity: Option<&Entity>)
    ensures
        match entity {
            Some(e) => se@.contains_key(tile_key(x, y)) && e.model() == se@[tile_key(x, y)],
            None => !se@.contains_key(tile_key(x, y)),
        },
{
    se.spawned_entities.get(&hash(x, y))
}

/// Takes the live entity off the tile `(x, y)`, and clears the tile in
/// the world so that none is spawned there again.
pub fn remove_entity(w: &mut World, se: &mut SpawnedEntities, x: u16, y: u16)
    ensures
        final(se)@ == old(se)@.remove(tile_key(x, y)),
        final(w)@ == (WorldModel {
            placed: old(w)@.placed.remove(tile_key(x, y)),
            ..old(w)@
        }),
{
    se.spawned_entities.remove(&hash(x, y));
    assert(se@ =~= old(se)@.remove(tile_key(x, y)));
    w.remove_entity(x, y);
}

/// What the result of building an entity stands for.
pub open spec fn entity_result<T: Spawnable>(r: Result<T, Error>) -> Result<EntityModel, Error> {
    match r {
        Ok(entity) => Ok(entity.model()),
        Err(e) => Err(e),
    }
}

/// Whether `outcome` is what building a mob from the definition `stats`
/// can give: the definition must hold the store `stats`; where it holds a
/// drop table `tools`, the mob carries what some run of rolls on that
/// table gives, and no tools otherwise.
pub open spec fn possible_mob(
    stats: StatsModel,
    x: u16,
    y: u16,
    name: Seq<char>,
    outcome: Result<EntityModel, Error>,
) -> bool {
    match model_box(stats, "stats"@) {
        Err(e) => outcome == Err::<EntityModel, Error>(e),
        Ok(_) => if model_has(stats, "tools"@) {
            match model_box(stats, "tools"@) {
                Err(e) => outcome == Err::<EntityModel, Error>(e),
                Ok(table) => exists|tools: Result<StatsModel, Error>| #[trigger]
                    possible_drops(table, tools) && outcome == (match tools {
                        Ok(t) => mob_model(stats, x, y, name, t),
                        Err(e) => Err(e),
                    }),
            }
        } else {
            outcome == mob_model(stats, x, y, name, Seq::empty())
        },
    }
}

/// What rolling the tools of a mob gave decides what the mob is.
proof fn lemma_possible_mob(
    stats: StatsModel,
    x: u16,
    y: u16,
    name: Seq<char>,
    tools: Result<StatsModel, Error>,
)
    requires
        model_box(stats, "stats"@) is Ok,
        model_has(stats, "tools"@),
        model_box(stats, "tools"@) is Ok,
        possible_drops(model_box(stats, "tools"@)->Ok_0, tools),
    ensures
        possible_mob(
            stats,
            x,
            y,
            name,
            match tools {
                Ok(t) => mob_model(stats, x, y, name, t),
                Err(e) => Err(e),
            },
        ),
{
}

impl Mob {
    /// A mob of the definition `stats`; its tools are rolled on the drop
    /// table `tools` of the definition, where it has one.
    pub fn new(stats: Stats, x: u16, y: u16, name: String) -> (r: Result<Mob, Error>)
        ensures
            possible_mob(stats@, x, y, name@, entity_result(r)),
    {
        match stats.get_box("stats") {
            Ok(_) => {},
            Err(e) => {
                return Err(e);
            },
        }
        if stats.has_var("tools") {
            let table = match stats.get_box("tools") {
                Ok(t) => t,
                Err(e) => {
                    return Err(e);
                },
            };
            let rolled = get_items(table);
            proof {
                lemma_possible_mob(stats@, x, y, name@, stats_result(rolled));
            }
            match rolled {
                Ok(tools) => Mob::with_tools(stats, x, y, name, tools),
                Err(e) => Err(e),
            }
        } else {
            Mob::with_tools(stats, x, y, name, Stats::new())
        }
    }
}

/// Builds a mob for the table of live entities.
pub fn create_mob(stats: Stats, x: u16, y: u16, name: String, _world: &World) -> (r: Result<
    Entity,
    Error,
>)
    ensures
        possible_mob(stats@, x, y, name@, entity_result(r)),
{
    match Mob::new(stats, x, y, name) {
        Ok(mob) => Ok(Entity::Mob(mob)),
        Err(e) => Err(e),
    }
}

/// The tiers from which a trader's goods are picked.
pub open spec fn trade_tiers() -> Seq<i64> {
    seq![0i64, 1i64, 2i64, 3i64, 4i64, 5i64]
}

/// Whether `count` is a number of items that the bounds `min` and `max`
/// admit, and if not, why the bounds admit none.
pub open spec fn count_refused(min: i64, max: i64) -> Option<Error> {
    if min < 0 || max < min {
        Some(Error::BadOdds)
    } else if max >= usize::MAX {
        Some(Error::Overflow)
    } else {
        None
    }
}

/// Whether `outcome` is what a trader of the definition `stats` can
/// become once its goods were picked with the result `goods`: the
/// definition must hold the store `stats` and the drop table `tools`, and
/// the trader carries what some run of rolls on that table gives.
pub open spec fn possible_trader_with(
    stats: StatsModel,
    x: u16,
    y: u16,
    name: Seq<char>,
    goods: Result<StatsModel, Error>,
    outcome: Result<EntityModel, Error>,
) -> bool {
    match goods {
        Err(e) => outcome == Err::<EntityModel, Error>(e),
        Ok(trade_items) => match model_box(stats, "stats"@) {
            Err(e) => outcome == Err::<EntityModel, Error>(e),
            Ok(_) => match model_box(stats, "tools"@) {
                Err(e) => outcome == Err::<EntityModel, Error>(e),
                Ok(table) => exists|tools: Result<StatsModel, Error>| #[trigger]
                    possible_drops(table, tools) && outcome == (match tools {
                        Ok(t) => trader_model(stats, x, y, name, trade_items, t),
                        Err(e) => Err(e),
                    }),
            },
        },
    }
}

/// Whether `outcome` is what building a trader from the definition
/// `stats` can give: a number of goods between `trade_min` and
/// `trade_max` is drawn, and that many are picked from the tiers 0 to 5.
pub open spec fn possible_trader(
    stats: StatsModel,
    world: WorldModel,
    x: u16,
    y: u16,
    name: Seq<char>,
    outcome: Result<EntityModel, Error>,
) -> bool {
    match model_int(stats, "trade_min"@) {
        Err(e) => outcome == Err::<EntityModel, Error>(e),
        Ok(min) => match model_int(stats, "trade_max"@) {
            Err(e) => outcome == Err::<EntityModel, Error>(e),
            Ok(max) => match count_refused(min, max) {
                Some(e) => outcome == Err::<EntityModel, Error>(e),
                None => exists|num: nat, goods: Result<StatsModel, Error>|
                    min <= num <= max && #[trigger] possible_pick(
                        world.items,
                        pool_of(world.tiers, trade_tiers(), 6),
                        num,
                        goods,
                    ) && possible_trader_with(stats, x, y, name, goods, outcome),
            },
        },
    }
}

/// What rolling the tools of a trader gave decides what the trader is.
proof fn lemma_possible_trader_with(
    stats: StatsModel,
    x: u16,
    y: u16,
    name: Seq<char>,
    trade_items: StatsModel,
    tools: Result<StatsModel, Error>,
)
    requires
        model_box(stats, "stats"@) is Ok,
        model_box(stats, "tools"@) is Ok,
        possible_drops(model_box(stats, "tools"@)->Ok_0, tools),
    ensures
        possible_trader_with(
            stats,
            x,
            y,
            name,
            Ok(trade_items),
            match tools {
                Ok(t) => trader_model(stats, x, y, name, trade_items, t),
                Err(e) => Err(e),
            },
        ),
{
}

/// What picking the goods of a trader led to decides what the trader is.
proof fn lemma_possible_trader(
    stats: StatsModel,
    world: WorldModel,
    x: u16,
    y: u16,
    name: Seq<char>,
    num: nat,
    goods: Result<StatsModel, Error>,
    outcome: Result<EntityModel, Error>,
)
    requires
        model_int(stats, "trade_min"@) is Ok,
        model_int(stats, "trade_max"@) is Ok,
        count_refused(model_int(stats, "trade_min"@)->Ok_0, model_int(stats, "trade_max"@)->Ok_0)
            is None,
        model_int(stats, "trade_min"@)->Ok_0 <= num <= model_int(stats, "trade_max"@)->Ok_0,
        possible_pick(world.items, pool_of(world.tiers, trade_tiers(), 6), num, goods),
        possible_trader_with(stats, x, y, name, goods, outcome),
    ensures
        possible_trader(stats, world, x, y, name, outcome),
{
}

impl TradingMob {
    /// A trader of the definition `stats`: the number of its goods is
    /// drawn between `trade_min` and `trade_max`, the goods are picked
    /// from the tiers 0 to 5 of the world, and its tools are rolled on the
    /// drop table `tools`.
    pub fn new(stats: Stats, x: u16, y: u16, name: String, world: &World) -> (r: Result<
        TradingMob,
        Error,
    >)
        ensures
            possible_trader(stats@, world@, x, y, name@, entity_result(r)),
    {
        let min = match stats.get_int("trade_min") {
            Ok(v) => v,
            Err(e) => {
                return Err(e);
            },
        };
        let max = match stats.get_int("trade_max") {
            Ok(v) => v,
            Err(e) => {
                return Err(e);
            },
        };
        if min < 0 || max < min {
            return Err(Error::BadOdds);
        }
        if max as u64 >= usize::MAX as u64 {
            return Err(Error::Overflow);
        }
        let num_items = random_in(min as u64, max as u64 + 1) as usize;
        let mut tiers: Vec<i64> = Vec::new();
        tiers.push(0);
        tiers.push(1);
        tiers.push(2);
        tiers.push(3);
        tiers.push(4);
        tiers.push(5);
        assert(tiers@ =~= trade_tiers());
        let picked = get_random_items(num_items, world, tiers);
        let ghost goods = stats_result(picked);
        let trade_items = match picked {
            Ok(items) => items,
            Err(e) => {
                proof {
                    lemma_possible_trader(
                        stats@,
                        world@,
                        x,
                        y,
                        name@,
                        num_items as nat,
                        goods,
                        Err(e),
                    );
                }
                return Err(e);
            },
        };
        match stats.get_box("stats") {
            Ok(_) => {},
            Err(e) => {
                proof {
                    lemma_possible_trader(
                        stats@,
                        world@,
                        x,
                        y,
                        name@,
                        num_items as nat,
                        goods,
                        Err(e),
                    );
                }
                return Err(e);
            },
        }
        let table = match stats.get_box("tools") {
            Ok(t) => t,
            Err(e) => {
                proof {
                    lemma_possible_trader(
                        stats@,
                        world@,
                        x,
                        y,
                        name@,
                        num_items as nat,
                        goods,
                        Err(e),
                    );
                }
                return Err(e);
            },
        };
        let rolled = get_items(table);
        let ghost drops = stats_result(rolled);
        let r = match rolled {
            Ok(tools) => TradingMob::with_goods(stats, x, y, name, trade_items, tools),
            Err(e) => Err(e),
        };
        proof {
            lemma_possible_trader_with(stats@, x, y, name@, goods->Ok_0, drops);
            lemma_possible_trader(
                stats@,
                world@,
                x,
                y,
                name@,
                num_items as nat,
                goods,
                entity_result(r),
            );
        }
        r
    }
}

/// Builds a trader for the table of live entities.
pub fn create_trading_mob(stats: Stats, x: u16, y: u16, name: String, world: &World) -> (r:
    Result<Entity, Error>)
    ensures
        possible_trader(stats@, world@, x, y, name@, entity_result(r)),
{
    match TradingMob::new(stats, x, y, name, world) {
        Ok(mob) => Ok(Entity::TradingMob(mob)),
        Err(e) => Err(e),
    }
}

/// The numbers in the first `n` values of a list.
pub open spec fn ints_of(l: Seq<ValueModel>, n: nat) -> Result<Seq<i64>, Error>
    decreases n,
{
    if n == 0 || n > l.len() {
        Ok(Seq::empty())
    } else {
        match ints_of(l, (n - 1) as nat) {
            Err(e) => Err(e),
            Ok(ints) => match value_int(l[n - 1]) {
                Ok(i) => Ok(ints.push(i)),
                Err(e) => Err(e),
            },
        }
    }
}

/// The tiers from which a chest of the definition `stats` is filled: the
/// numbers of its list `tiers`, none where it has no such list.
pub open spec fn chest_tiers(stats: StatsModel) -> Result<Seq<i64>, Error> {
    match model_get(stats, "tiers"@) {
        None => Ok(Seq::empty()),
        Some(v) => match value_list(v) {
            Err(e) => Err(e),
            Ok(l) => ints_of(l, l.len()),
        },
    }
}

/// Whether `outcome` is what building a chest from the definition `stats`
/// can give: a number of items between `items_min` and `items_max` (none
/// where they are missing) is drawn, and that many are picked from the
/// tiers that the definition lists.
pub open spec fn possible_chest(
    stats: StatsModel,
    world: WorldModel,
    x: u16,
    y: u16,
    name: Seq<char>,
    outcome: Result<EntityModel, Error>,
) -> bool {
    match model_int_or(stats, "items_min"@, 0) {
        Err(e) => outcome == Err::<EntityModel, Error>(e),
        Ok(min) => match model_int_or(stats, "items_max"@, 0) {
            Err(e) => outcome == Err::<EntityModel, Error>(e),
            Ok(max) => match chest_tiers(stats) {
                Err(e) => outcome == Err::<EntityModel, Error>(e),
                Ok(levels) => match count_refused(min, max) {
                    Some(e) => outcome == Err::<EntityModel, Error>(e),
                    None => exists|num: nat, goods: Result<StatsModel, Error>|
                        min <= num <= max && #[trigger] possible_pick(
                            world.items,
                            pool_of(world.tiers, levels, levels.len()),
                            num,
                            goods,
                        ) && outcome == (match goods {
                            Ok(items) => Ok(chest_model(x, y, name, items)),
                            Err(e) => Err(e),
                        }),
                },
            },
        },
    }
}

/// Once reading the first `n` numbers has failed, reading more fails in
/// the same way.
pub proof fn lemma_ints_of_fails(l: Seq<ValueModel>, n: nat, more: nat)
    requires
        n <= more <= l.len(),
        ints_of(l, n) is Err,
    ensures
        ints_of(l, more) == ints_of(l, n),
    decreases more,
{
    if n < more {
        lemma_ints_of_fails(l, n, (more - 1) as nat);
    }
}

/// What picking the contents of a chest gave decides what the chest is.
proof fn lemma_possible_chest(
    stats: StatsModel,
    world: WorldModel,
    x: u16,
    y: u16,
    name: Seq<char>,
    num: nat,
    goods: Result<StatsModel, Error>,
)
    requires
        model_int_or(stats, "items_min"@, 0) is Ok,
        model_int_or(stats, "items_max"@, 0) is Ok,
        chest_tiers(stats) is Ok,
        count_refused(
            model_int_or(stats, "items_min"@, 0)->Ok_0,
            model_int_or(stats, "items_max"@, 0)->Ok_0,
        ) is None,
        model_int_or(stats, "items_min"@, 0)->Ok_0 <= num <= model_int_or(
            stats,
            "items_max"@,
            0,
        )->Ok_0,
        possible_pick(
            world.items,
            pool_of(world.tiers, chest_tiers(stats)->Ok_0, chest_tiers(stats)->Ok_0.len()),
            num,
            goods,
        ),
    ensures
        possible_chest(
            stats,
            world,
            x,
            y,
            name,
            match goods {
                Ok(items) => Ok(chest_model(x, y, name, items)),
                Err(e) => Err(e),
            },
        ),
{
}

impl LootChest {
    /// A chest of the definition `stats`: the number of its items is
    /// drawn between `items_min` and `items_max`, and the items are picked
    /// from the tiers that the definition lists.
    #[verifier::loop_isolation(false)]
    pub fn new(stats: Stats, x: u16, y: u16, name: String, world: &World) -> (r: Result<
        LootChest,
        Error,
    >)
        ensures
            possible_chest(stats@, world@, x, y, name@, entity_result(r)),
    {
        let min = match stats.get_int_or("items_min", 0) {
            Ok(v) => v,
            Err(e) => {
                return Err(e);
            },
        };
        let max = match stats.get_int_or("items_max", 0) {
            Ok(v) => v,
            Err(e) => {
                return Err(e);
            },
        };
        let mut tiers: Vec<i64> = Vec::new();
        match stats.get("tiers") {
            Ok(v) => {
                let list = match v.as_vec() {
                    Ok(l) => l,
                    Err(e) => {
                        return Err(e);
                    },
                };
                let ghost levels = list_model(list@);
                let mut i: usize = 0;
                while i < list.len()
                    invariant
                        i <= list@.len(),
                        levels == list_model(list@),
                        ints_of(levels, i as nat) == Ok::<Seq<i64>, Error>(tiers@),
                    decreases list@.len() - i,
                {
                    match list[i].as_int() {
                        Ok(level) => {
                            tiers.push(level);
                        },
                        Err(e) => {
                            proof {
                                lemma_ints_of_fails(levels, (i + 1) as nat, levels.len());
                            }
                            return Err(e);
                        },
                    }
                    i = i + 1;
                }
            },
            Err(_) => {},
        }
        assert(chest_tiers(stats@) == Ok::<Seq<i64>, Error>(tiers@));
        if min < 0 || max < min {
            return Err(Error::BadOdds);
        }
        if max as u64 >= usize::MAX as u64 {
            return Err(Error::Overflow);
        }
        let num_items = random_in(min as u64, max as u64 + 1) as usize;
        let ghost levels = tiers@;
        let picked = get_random_items(num_items, world, tiers);
        let ghost goods = stats_result(picked);
        assert(possible_pick(
            world@.items,
            pool_of(world@.tiers, levels, levels.len()),
            num_items as nat,
            goods,
        ));
        let r = match picked {
            Ok(items) => Ok(LootChest::with_items(x, y, name, items)),
            Err(e) => Err(e),
        };
        proof {
            lemma_possible_chest(stats@, world@, x, y, name@, num_items as nat, goods);
        }
        r
    }
}

/// Builds a chest for the table of live entities.
pub fn create_chest(stats: Stats, x: u16, y: u16, name: String, world: &World) -> (r: Result<
    Entity,
    Error,
>)
    ensures
        possible_chest(stats@, world@, x, y, name@, entity_result(r)),
{
    match LootChest::new(stats, x, y, name, world) {
        Ok(chest) => Ok(Entity::Chest(chest)),
        Err(e) => Err(e),
    }
}

/// Whether `outcome` is what building the entity that the tile
/// definition `stats` describes can give: the definition names its type in
/// `entity_type`, and the type has a constructor.
pub open spec fn possible_entity(
    stats: StatsModel,
    world: WorldModel,
    x: u16,
    y: u16,
    name: Seq<char>,
    outcome: Result<EntityModel, Error>,
) -> bool {
    match model_string(stats, "entity_type"@) {
        Err(e) => outcome == Err::<EntityModel, Error>(e),
        Ok(tag) => if tag == "mob"@ {
            possible_mob(stats, x, y, name, outcome)
        } else if tag == "trading_mob"@ {
            possible_trader(stats, world, x, y, name, outcome)
        } else if tag == "chest"@ {
            possible_chest(stats, world, x, y, name, outcome)
        } else {
            outcome == Err::<EntityModel, Error>(Error::UnknownEntityType)
        },
    }
}

/// Spawns the entity that the tile definition `stats` describes on the
/// tile `(x, y)`. Where none can be built the table is left as it was.
pub fn spawn(
    stats: Stats,
    x: u16,
    y: u16,
    name: String,
    se: &mut SpawnedEntities,
    world: &World,
) -> (r: Result<(), Error>)
    ensures
        exists|outcome: Result<EntityModel, Error>| #[trigger]
            possible_entity(stats@, world@, x, y, name@, outcome) && (match outcome {
                Ok(entity) => r is Ok && final(se)@ == old(se)@.insert(tile_key(x, y), entity),
                Err(e) => r == Err::<(), Error>(e) && final(se)@ == old(se)@,
            }),
{
    let tag = match stats.get_string("entity_type") {
        Ok(tag) => tag,
        Err(e) => {
            assert(possible_entity(stats@, world@, x, y, name@, Err(e)));
            return Err(e);
        },
    };
    let ghost definition = stats@;
    let ghost called = name@;
    let built = if str_eq(tag.as_str(), "mob") {
        create_mob(stats, x, y, name, world)
    } else if str_eq(tag.as_str(), "trading_mob") {
        create_trading_mob(stats, x, y, name, world)
    } else if str_eq(tag.as_str(), "chest") {
        create_chest(stats, x, y, name, world)
    } else {
        Err(Error::UnknownEntityType)
    };
    assert(possible_entity(definition, world@, x, y, called, entity_result(built)));
    match built {
        Ok(entity) => {
            se.put(x, y, entity);
            Ok(())
        },
        Err(e) => Err(e),
    }
}

/// The entry of `table` under `key`, to be changed in place. This is the
/// trusted call of std's `HashMap::get_mut`, which hands out the value
/// that the map holds under the key, if it holds one: what is written
/// through the reference is what the map holds under the key afterwards,
/// and nothing else in the map changes.
#[verifier::external_body]
fn table_get_mut<'a>(table: &'a mut HashMap<u32, Entity>, key: u32) -> (entity: Option<
    &'a mut Entity,
>)
    ensures
        match entity {
            Some(e) => old(table)@.contains_key(key) && *e == old(table)@[key] && final(table)@
                == old(table)@.insert(key, *final(e)),
            None => !old(table)@.contains_key(key) && final(table)@ == old(table)@,
        },
{
    table.get_mut(&key)
}

/// The live entity on the tile `(x, y)`, to be changed in place.
pub fn get_entity_mut(se: &mut SpawnedEntities, x: u16, y: u16) -> (entity: Option<&mut Entity>)
    ensures
        match entity {
            Some(e) => old(se)@.contains_key(tile_key(x, y)) && e.model() == old(se)@[tile_key(
                x,
                y,
            )] && final(se)@ == old(se)@.insert(tile_key(x, y), final(e).model()),
            None => !old(se)@.contains_key(tile_key(x, y)) && final(se)@ == old(se)@,
        },
{
    table_get_mut(&mut se.spawned_entities, hash(x, y))
}

} // verus!
