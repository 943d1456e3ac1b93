//! Players: position, attributes, and the bookkeeping of a duel.

use crate::error::Error;
use crate::stats::{
    lemma_get_after_set, model_box, model_get, model_int, model_int_or, model_remove, model_set,
    value_int, Stats, StatsModel, Value, ValueModel,
};
use vstd::prelude::*;

verus! {

/// One connected player.
pub struct Player {
    x: u16,
    y: u16,
    data: Stats,
    turn: bool,
    opponent: Option<u8>,
    last_turn_time: u64,
    interact: bool,
}

/// What a player stands for.
pub struct PlayerModel {
    /// The tile the player stands on.
    pub x: u16,
    pub y: u16,
    /// The attributes: `identity`, `stats` and `inventory` are nested stores.
    pub data: StatsModel,
    /// Whether it is the player's turn in a duel.
    pub turn: bool,
    /// The id of the player's opponent, if the player is in a duel.
    pub opponent: Option<u8>,
    /// When the player's turn began, in milliseconds.
    pub last_turn_time: u64,
    /// Whether the player has met the entity on its tile in this turn.
    pub interact: bool,
}

impl View for Player {
    type V = PlayerModel;

    closed spec fn view(&self) -> PlayerModel {
        PlayerModel {
            x: self.x,
            y: self.y,
            data: self.data@,
            turn: self.turn,
            opponent: self.opponent,
            last_turn_time: self.last_turn_time,
            interact: self.interact,
        }
    }
}

/// The nested store under `name`, or an empty one where `data` holds no store there.
pub open spec fn box_or_empty(data: StatsModel, name: Seq<char>) -> StatsModel {
    match model_get(data, name) {
        Some(ValueModel::Box(s)) => s,
        _ => Seq::empty(),
    }
}

/// The attributes of a new player with the id `id`: those given, with the
/// id written into the `identity` store.
pub open spec fn data_with_id(data: StatsModel, id: u8) -> StatsModel {
    model_set(
        data,
        "identity"@,
        ValueModel::Box(
            model_set(box_or_empty(data, "identity"@), "id"@, ValueModel::Int(id as i64)),
        ),
    )
}

/// What a player table stands for, slot by slot.
pub open spec fn table_model(players: Seq<Option<Player>>) -> Seq<Option<PlayerModel>> {
    Seq::new(
        players.len(),
        |i: int|
            match players[i] {
                Some(p) => Some(p@),
                None => None,
            },
    )
}

/// The number called `id` in the `identity` store.
pub open spec fn identity_id(data: StatsModel) -> Result<i64, Error> {
    match model_box(data, "identity"@) {
        Ok(s) => model_int(s, "id"@),
        Err(e) => Err(e),
    }
}

/// The number called `name` in the `stats` store.
pub open spec fn stat_of(data: StatsModel, name: Seq<char>) -> Result<i64, Error> {
    match model_box(data, "stats"@) {
        Ok(s) => model_int(s, name),
        Err(e) => Err(e),
    }
}

/// The attributes after `delta` is added to the number called `name` in
/// the `stats` store; a sum outside 64 bits is refused.
pub open spec fn stat_changed(data: StatsModel, name: Seq<char>, delta: int) -> Result<
    StatsModel,
    Error,
> {
    match stat_of(data, name) {
        Err(e) => Err(e),
        Ok(v) => if i64::MIN <= v + delta <= i64::MAX {
            Ok(
                model_set(
                    data,
                    "stats"@,
                    ValueModel::Box(
                        model_set(
                            model_box(data, "stats"@)->Ok_0,
                            name,
                            ValueModel::Int((v + delta) as i64),
                        ),
                    ),
                ),
            )
        } else {
            Err(Error::Overflow)
        },
    }
}

/// How many units of `item` the `inventory` store holds; none where it
/// does not name the item.
pub open spec fn held(data: StatsModel, item: Seq<char>) -> Result<i64, Error> {
    match model_box(data, "inventory"@) {
        Ok(inv) => model_int_or(inv, item, 0),
        Err(e) => Err(e),
    }
}

/// The inventory `inv` after the first `n` entries of `items` are added to
/// it: each entry names an item and holds how many units come in.
pub open spec fn items_added(inv: StatsModel, items: StatsModel, n: nat) -> Result<
    StatsModel,
    Error,
>
    decreases n,
{
    if n == 0 || n > items.len() {
        Ok(inv)
    } else {
        match items_added(inv, items, (n - 1) as nat) {
            Err(e) => Err(e),
            Ok(acc) => match value_int(items[n - 1].1) {
                Err(e) => Err(e),
                Ok(more) => match model_int_or(acc, items[n - 1].0, 0) {
                    Err(e) => Err(e),
                    Ok(have) => if i64::MIN <= have + more <= i64::MAX {
                        Ok(model_set(acc, items[n - 1].0, ValueModel::Int((have + more) as i64)))
                    } else {
                        Err(Error::Overflow)
                    },
                },
            },
        }
    }
}

/// The attributes after every entry of `items` is added to the inventory.
pub open spec fn with_items(data: StatsModel, items: StatsModel) -> Result<StatsModel, Error> {
    match model_box(data, "inventory"@) {
        Err(e) => Err(e),
        Ok(inv) => match items_added(inv, items, items.len()) {
            Err(e) => Err(e),
            Ok(filled) => Ok(model_set(data, "inventory"@, ValueModel::Box(filled))),
        },
    }
}

/// The attributes after `count` units of `item` leave the inventory: an
/// item of which nothing is left leaves the inventory altogether. More than
/// the inventory holds cannot leave it.
pub open spec fn without_items(data: StatsModel, item: Seq<char>, count: i64) -> Result<
    StatsModel,
    Error,
> {
    match held(data, item) {
        Err(e) => Err(e),
        Ok(have) => if count < 0 {
            Err(Error::BadParameters)
        } else if count > have {
            Err(Error::Insufficient(have))
        } else {
            let inv = model_box(data, "inventory"@)->Ok_0;
            let left = if have - count == 0 {
                model_remove(inv, item)
            } else {
                model_set(inv, item, ValueModel::Int((have - count) as i64))
            };
            Ok(model_set(data, "inventory"@, ValueModel::Box(left)))
        },
    }
}

impl Player {
    /// A player on the tile `(x, y)` with the attributes `data`, into whose
    /// `identity` the id is written. The player is in no duel.
    pub fn from(x: u16, y: u16, id: u8, data: Stats) -> (p: Player)
        ensures
            p@ == (PlayerModel {
                x,
                y,
                data: data_with_id(data@, id),
                turn: false,
                opponent: None,
                last_turn_time: 0,
                interact: false,
            }),
    {
        let mut data = data;
        let mut identity = match data.get("identity") {
            Ok(Value::Box(s)) => s.clone(),
            _ => Stats::new(),
        };
        identity.set("id", Value::Int(id as i64));
        data.set("identity", Value::Box(identity));
        Player { x, y, data, turn: false, opponent: None, last_turn_time: 0, interact: false }
    }

    /// The column of the player's tile.
    pub fn x(&self) -> (x: u16)
        ensures
            x == self@.x,
    {
        self.x
    }

    /// The row of the player's tile.
    pub fn y(&self) -> (y: u16)
        ensures
            y == self@.y,
    {
        self.y
    }

    /// The player's attributes.
    pub fn data(&self) -> (data: &Stats)
        ensures
            data@ == self@.data,
    {
        &self.data
    }

    /// Whether it is the player's turn.
    pub fn turn(&self) -> (turn: bool)
        ensures
            turn == self@.turn,
    {
        self.turn
    }

    /// The id of the player's opponent.
    pub fn opponent(&self) -> (opponent: Option<u8>)
        ensures
            opponent == self@.opponent,
    {
        self.opponent
    }

    /// When the player's turn began.
    pub fn get_last_turn_time(&self) -> (millis: u64)
        ensures
            millis == self@.last_turn_time,
    {
        self.last_turn_time
    }

    /// Whether the player has met the entity on its tile in this turn.
    pub fn interact(&self) -> (interact: bool)
        ensures
            interact == self@.interact,
    {
        self.interact
    }

    /// Moves the player to the tile `(x, y)`.
    pub fn set_position(&mut self, x: u16, y: u16)
        ensures
            final(self)@ == (PlayerModel { x, y, ..old(self)@ }),
    {
        self.x = x;
        self.y = y;
    }

    /// Gives or takes the turn.
    pub fn set_turn(&mut self, turn: bool)
        ensures
            final(self)@ == (PlayerModel { turn, ..old(self)@ }),
    {
        self.turn = turn;
    }

    /// Binds the player to an opponent, or releases it.
    pub fn set_opponent(&mut self, opponent: Option<u8>)
        ensures
            final(self)@ == (PlayerModel { opponent, ..old(self)@ }),
    {
        self.opponent = opponent;
    }

    /// Records when the player's turn began.
    pub fn set_last_turn_time(&mut self, millis: u64)
        ensures
            final(self)@ == (PlayerModel { last_turn_time: millis, ..old(self)@ }),
    {
        self.last_turn_time = millis;
    }

    /// Records whether the player has met the entity on its tile.
    pub fn set_interact(&mut self, interact: bool)
        ensures
            final(self)@ == (PlayerModel { interact, ..old(self)@ }),
    {
        self.interact = interact;
    }

    /// The number called `id` in the player's `identity`.
    pub fn identity_id(&self) -> (r: Result<i64, Error>)
        ensures
            r == identity_id(self@.data),
    {
        match self.data.get_box("identity") {
            Ok(s) => s.get_int("id"),
            Err(e) => Err(e),
        }
    }

    /// The number called `name` in the player's `stats`.
    pub fn stat(&self, name: &str) -> (r: Result<i64, Error>)
        ensures
            r == stat_of(self@.data, name@),
    {
        match self.data.get_box("stats") {
            Ok(s) => s.get_int(name),
            Err(e) => Err(e),
        }
    }

    /// Adds `delta` to the number called `name` in the player's `stats`.
    /// Where that fails the player is left as it was.
    pub fn change_stat(&mut self, name: &str, delta: i64) -> (r: Result<(), Error>)
        ensures
            match stat_changed(old(self)@.data, name@, delta as int) {
                Ok(data) => r is Ok && final(self)@ == (PlayerModel { data, ..old(self)@ }),
                Err(e) => r == Err::<(), Error>(e) && final(self)@ == old(self)@,
            },
    {
        let mut stats = match self.data.get_box("stats") {
            Ok(s) => s.clone(),
            Err(e) => {
                return Err(e);
            },
        };
        let v = match stats.get_int(name) {
            Ok(v) => v,
            Err(e) => {
                return Err(e);
            },
        };
        match v.checked_add(delta) {
            Some(sum) => {
                stats.set(name, Value::Int(sum));
                self.data.set("stats", Value::Box(stats));
                Ok(())
            },
            None => Err(Error::Overflow),
        }
    }

    /// Adds `xp` to the player's experience, the stat called `xp`.
    pub fn change_xp(&mut self, xp: i64) -> (r: Result<(), Error>)
        ensures
            match stat_changed(old(self)@.data, "xp"@, xp as int) {
                Ok(data) => r is Ok && final(self)@ == (PlayerModel { data, ..old(self)@ }),
                Err(e) => r == Err::<(), Error>(e) && final(self)@ == old(self)@,
            },
    {
        self.change_stat("xp", xp)
    }

    /// Whether the player's health, the stat called `health`, is spent.
    pub fn is_dead(&self) -> (r: Result<bool, Error>)
        ensures
            match stat_of(self@.data, "health"@) {
                Ok(h) => r == Ok::<bool, Error>(h <= 0),
                Err(e) => r == Err::<bool, Error>(e),
            },
    {
        match self.stat("health") {
            Ok(h) => Ok(h <= 0),
            Err(e) => Err(e),
        }
    }

    /// How many units of `item` the player holds.
    pub fn count_item(&self, item: &str) -> (r: Result<i64, Error>)
        ensures
            r == held(self@.data, item@),
    {
        match self.data.get_box("inventory") {
            Ok(inv) => inv.get_int_or(item, 0),
            Err(e) => Err(e),
        }
    }

    /// Puts every entry of `items` into the player's inventory: each names
    /// an item and holds how many units come in. Where that fails the
    /// player is left as it was.
    pub fn add_items_to_inventory(&mut self, items: &Stats) -> (r: Result<(), Error>)
        ensures
            match with_items(old(self)@.data, items@) {
                Ok(data) => r is Ok && final(self)@ == (PlayerModel { data, ..old(self)@ }),
                Err(e) => r == Err::<(), Error>(e) && final(self)@ == old(self)@,
            },
    {
        let mut inv = match self.data.get_box("inventory") {
            Ok(inv) => inv.clone(),
            Err(e) => {
                return Err(e);
            },
        };
        let ghost start = inv@;
        let mut i: usize = 0;
        while i < items.len()
            invariant
                i <= items@.len(),
                self@ == old(self)@,
                model_box(self@.data, "inventory"@) == Ok::<StatsModel, Error>(start),
                items_added(start, items@, i as nat) == Ok::<StatsModel, Error>(inv@),
            decreases items@.len() - i,
        {
            let name = items.name_at(i);
            let more = match items.value_at(i).as_int() {
                Ok(more) => more,
                Err(e) => {
                    proof {
                        lemma_items_added_fails(start, items@, (i + 1) as nat, items@.len());
                    }
                    return Err(e);
                },
            };
            let have = match inv.get_int_or(name.as_str(), 0) {
                Ok(have) => have,
                Err(e) => {
                    proof {
                        lemma_items_added_fails(start, items@, (i + 1) as nat, items@.len());
                    }
                    return Err(e);
                },
            };
            match have.checked_add(more) {
                Some(sum) => {
                    inv.set(name.as_str(), Value::Int(sum));
                },
                None => {
                    proof {
                        lemma_items_added_fails(start, items@, (i + 1) as nat, items@.len());
                    }
                    return Err(Error::Overflow);
                },
            }
            i = i + 1;
        }
        self.data.set("inventory", Value::Box(inv));
        Ok(())
    }

    /// Takes `count` units of `item` out of the player's inventory. Where
    /// that fails the player is left as it was.
    pub fn remove_items(&mut self, item: &str, count: i64) -> (r: Result<(), Error>)
        ensures
            match without_items(old(self)@.data, item@, count) {
                Ok(data) => r is Ok && final(self)@ == (PlayerModel { data, ..old(self)@ }),
                Err(e) => r == Err::<(), Error>(e) && final(self)@ == old(self)@,
            },
    {
        let mut inv = match self.data.get_box("inventory") {
            Ok(inv) => inv.clone(),
            Err(e) => {
                return Err(e);
            },
        };
        let have = match inv.get_int_or(item, 0) {
            Ok(have) => have,
            Err(e) => {
                return Err(e);
            },
        };
        if count < 0 {
            return Err(Error::BadParameters);
        }
        if count > have {
            return Err(Error::Insufficient(have));
        }
        if have - count == 0 {
            inv.remove(item);
        } else {
            inv.set(item, Value::Int(have - count));
        }
        self.data.set("inventory", Value::Box(inv));
        Ok(())
    }
}

impl Clone for Player {
    /// A deep copy: the copy stands for the same player.
    fn clone(&self) -> (copy: Player)
        ensures
            copy@ == self@,
    {
        Player {
            x: self.x,
            y: self.y,
            data: self.data.clone(),
            turn: self.turn,
            opponent: self.opponent,
            last_turn_time: self.last_turn_time,
            interact: self.interact,
        }
    }
}

/// A stat that was changed holds what it held and what was added.
pub proof fn lemma_stat_after_change(data: StatsModel, name: Seq<char>, delta: int)
    requires
        stat_changed(data, name, delta) is Ok,
    ensures
        stat_of(data, name) is Ok,
        stat_of(stat_changed(data, name, delta)->Ok_0, name) is Ok,
        stat_of(stat_changed(data, name, delta)->Ok_0, name)->Ok_0 == stat_of(data, name)->Ok_0
            + delta,
{
    let stats = model_box(data, "stats"@)->Ok_0;
    let v = ValueModel::Int((stat_of(data, name)->Ok_0 + delta) as i64);
    lemma_get_after_set(stats, name, v, name);
    lemma_get_after_set(data, "stats"@, ValueModel::Box(model_set(stats, name, v)), "stats"@);
}

/// Once adding the first `n` entries has failed, adding more of them fails
/// in the same way.
pub proof fn lemma_items_added_fails(inv: StatsModel, items: StatsModel, n: nat, more: nat)
    requires
        n <= more <= items.len(),
        items_added(inv, items, n) is Err,
    ensures
        items_added(inv, items, more) == items_added(inv, items, n),
    decreases more,
{
    if n < more {
        lemma_items_added_fails(inv, items, n, (more - 1) as nat);
    }
}

} // verus!
