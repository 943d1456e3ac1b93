//! The command handlers of the live entities.

use crate::action::{param_int, param_string, params_model, Param, ParamModel};
use crate::dice::{random_index, MILLION};
use crate::entities::{
    get_entity, get_entity_mut, remove_entity, EntityModel, SpawnedEntities, Spawnable,
};
use crate::error::Error;
use crate::loot::{get_items, possible_drops, stats_result};
use crate::player::{
    held, items_added, lemma_stat_after_change, stat_changed, stat_of, with_items,
    without_items, Player, PlayerModel,
};
use crate::playerout::{text_packet, PlayerOut};
use crate::scene::{
    entity_at, player_at, position_of, scene_of, settles, with_entity, with_player, without_entity,
    Outcome, Scene,
};
use crate::stats::{
    lemma_get_after_remove, lemma_get_after_set, model_box, model_box_or_empty, model_flt_or,
    model_get, model_has, model_int, model_int_or, model_remove, model_set, render_stats,
    value_list, value_string, Stats, StatsModel, Value, ValueModel,
};
use crate::text::{push_signed, push_str, signed_decimal, utf8};
use crate::world::World;
use vstd::prelude::*;

verus! {

/// What a player reads who opens the chest `chest`.
pub open spec fn chest_text(chest: EntityModel) -> Seq<u8> {
    utf8("you encountered a "@) + utf8(chest.name) + utf8("\n"@) + utf8("you recieved:\n"@)
        + render_stats(chest.data())
}

/// What opening the entity on the player's tile does: its contents go to
/// the player's inventory, and the entity is gone.
pub open spec fn chest_opened(s: Scene, id: u8) -> Result<Outcome, Error> {
    match player_at(s.players, id) {
        Err(e) => Err(e),
        Ok(p) => match entity_at(s.entities, p.x, p.y) {
            Err(e) => Err(e),
            Ok(chest) => match with_items(p.data, chest.data()) {
                Err(e) => Err(e),
                Ok(data) => Ok(
                    Outcome {
                        scene: without_entity(
                            with_player(s, id, PlayerModel { data, ..p }),
                            p.x,
                            p.y,
                        ),
                        out: seq![text_packet(chest_text(chest))],
                    },
                ),
            },
        },
    }
}

/// The handler `interact` of a chest: tells the player what the chest on
/// its tile holds, hands the contents over and removes the chest.
pub fn chest_interact(
    entities: &mut SpawnedEntities,
    player_id: u8,
    players: &mut Vec<Option<Player>>,
    world: &mut World,
) -> (r: Result<PlayerOut, Error>)
    ensures
        settles(
            scene_of(*old(entities), *old(players), *old(world)),
            scene_of(*final(entities), *final(players), *final(world)),
            r,
            chest_opened(scene_of(*old(entities), *old(players), *old(world)), player_id),
        ),
{
    let (x, y) = match position_of(players, player_id) {
        Ok(tile) => tile,
        Err(e) => {
            return Err(e);
        },
    };
    let (name, data) = match get_entity(entities, x, y) {
        Some(chest) => (chest.name(), chest.data()),
        None => {
            return Err(Error::NoSuchEntity);
        },
    };
    let mut text: Vec<u8> = Vec::new();
    push_str(&mut text, "you encountered a ");
    push_str(&mut text, name.as_str());
    push_str(&mut text, "\n");
    push_str(&mut text, "you recieved:\n");
    data.write_to(&mut text);
    let id = player_id as usize;
    match &mut players[id] {
        Some(p) => {
            match p.add_items_to_inventory(&data) {
                Ok(()) => {},
                Err(e) => {
                    return Err(e);
                },
            }
        },
        None => {},
    }
    remove_entity(world, entities, x, y);
    let mut out = PlayerOut::new();
    out.append_bytes(text);
    Ok(out)
}

/// The list of quotes called `name` that the entity data `data` holds in
/// its store `quotes`, if it holds one.
pub open spec fn quote_list(data: StatsModel, name: Seq<char>) -> Result<
    Option<Seq<ValueModel>>,
    Error,
> {
    match model_box_or_empty(data, "quotes"@) {
        Err(e) => Err(e),
        Ok(quotes) => match model_get(quotes, name) {
            None => Ok(None),
            Some(v) => match value_list(v) {
                Ok(l) => Ok(Some(l)),
                Err(e) => Err(e),
            },
        },
    }
}

/// The quote called `name` at the place `pick` of its list; the empty
/// quote where the entity has no such list.
pub open spec fn quote_picked(data: StatsModel, name: Seq<char>, pick: int) -> Result<
    Seq<char>,
    Error,
> {
    match quote_list(data, name) {
        Err(e) => Err(e),
        Ok(None) => Ok(Seq::empty()),
        Ok(Some(l)) => if 0 <= pick < l.len() {
            value_string(l[pick])
        } else {
            Err(Error::BadOdds)
        },
    }
}

/// Whether `outcome` is what drawing a quote called `name` can give: the
/// quote at some place of its list, where the list has one.
pub open spec fn possible_quote(
    data: StatsModel,
    name: Seq<char>,
    outcome: Result<Seq<char>, Error>,
) -> bool {
    exists|pick: int| #[trigger]
        quote_picked(data, name, pick) == outcome && (match quote_list(data, name) {
            Ok(Some(l)) => l.len() == 0 || 0 <= pick < l.len(),
            _ => true,
        })
}

/// What a result with a string stands for.
pub open spec fn string_result(r: Result<String, Error>) -> Result<Seq<char>, Error> {
    match r {
        Ok(s) => Ok(s@),
        Err(e) => Err(e),
    }
}

/// How many quotes called `name` the entity data holds: `None` where it
/// has no such list.
pub fn count_quotes(data: &Stats, name: &str) -> (r: Result<Option<usize>, Error>)
    ensures
        match quote_list(data@, name@) {
            Err(e) => r == Err::<Option<usize>, Error>(e),
            Ok(None) => r == Ok::<Option<usize>, Error>(None),
            Ok(Some(l)) => r == Ok::<Option<usize>, Error>(Some(l.len() as usize)),
        },
{
    let quotes = match data.get("quotes") {
        Ok(v) => match v.as_box() {
            Ok(q) => q,
            Err(e) => {
                return Err(e);
            },
        },
        Err(_) => {
            return Ok(None);
        },
    };
    match quotes.get(name) {
        Ok(v) => match v.as_vec() {
            Ok(l) => Ok(Some(l.len())),
            Err(e) => Err(e),
        },
        Err(_) => Ok(None),
    }
}

/// The quote called `name` at the place `pick` of its list; the empty
/// quote where the entity has no such list.
pub fn pick_quote(data: &Stats, name: &str, pick: usize) -> (r: Result<String, Error>)
    ensures
        string_result(r) == quote_picked(data@, name@, pick as int),
{
    let quotes = match data.get("quotes") {
        Ok(v) => match v.as_box() {
            Ok(q) => q,
            Err(e) => {
                return Err(e);
            },
        },
        Err(_) => {
            return Ok(String::new());
        },
    };
    match quotes.get(name) {
        Ok(v) => match v.as_vec() {
            Ok(l) => {
                if pick < l.len() {
                    match l[pick].as_string() {
                        Ok(s) => Ok(s.clone()),
                        Err(e) => Err(e),
                    }
                } else {
                    Err(Error::BadOdds)
                }
            },
            Err(e) => Err(e),
        },
        Err(_) => Ok(String::new()),
    }
}

/// Draws one of the entity's quotes called `quote_name`; the empty quote
/// where the entity has none of that name.
pub fn get_random_quote<T: Spawnable>(entity: &T, quote_name: &str) -> (r: Result<String, Error>)
    ensures
        possible_quote(entity.model().data(), quote_name@, string_result(r)),
{
    let data = entity.data();
    let pick = match count_quotes(&data, quote_name) {
        Ok(Some(n)) => if n > 0 {
            random_index(n)
        } else {
            0
        },
        _ => 0,
    };
    let r = pick_quote(&data, quote_name, pick);
    assert(quote_picked(data@, quote_name@, pick as int) == string_result(r));
    r
}

/// The part of `amount` that passes a defence of `def` millionths: the
/// amount less that fraction of it, rounded toward zero and held within
/// 64 bits.
pub open spec fn passing(amount: i64, def: i64) -> i64 {
    let product = amount * (MILLION - def);
    let whole = if product >= 0 {
        product / (MILLION as int)
    } else {
        -((-product) / (MILLION as int))
    };
    if whole > i64::MAX {
        i64::MAX
    } else if whole < i64::MIN {
        i64::MIN
    } else {
        whole as i64
    }
}

/// Computes the part of `amount` that passes a defence of `def` millionths.
pub fn pass(amount: i64, def: i64) -> (r: i64)
    ensures
        r == passing(amount, def),
{
    let a: i128 = amount as i128;
    let f: i128 = 1_000_000i128 - def as i128;
    assert(-0x6000_0000_0000_0000_0000_0000_0000_0000 < a * f
        < 0x6000_0000_0000_0000_0000_0000_0000_0000) by (nonlinear_arith)
        requires
            -0x8000_0000_0000_0000 <= a <= 0x8000_0000_0000_0000,
            -0x8000_0000_0010_0000 <= f <= 0x8000_0000_0010_0000,
    ;
    let product: i128 = a * f;
    let whole: i128 = if product >= 0 {
        product / 1_000_000i128
    } else {
        -((-product) / 1_000_000i128)
    };
    if whole > i64::MAX as i128 {
        i64::MAX
    } else if whole < i64::MIN as i128 {
        i64::MIN
    } else {
        whole as i64
    }
}

/// What a strike comes to, once everything it depends on was read.
pub struct Blow {
    /// The player who strikes.
    pub player: PlayerModel,
    /// The entity that is struck.
    pub entity: EntityModel,
    /// The damage that passes the entity's defences.
    pub dealt: i64,
    /// The entity's health before the strike.
    pub health: i64,
}

/// Reads a strike: the player must exist and an entity must stand on its
/// tile; the first two parameters are the physical and the magic damage;
/// the entity's `physical_def` and `magic_def` (none where they are
/// missing) hold back their fraction of each; and the entity must have a
/// `health`.
pub open spec fn blow(s: Scene, params: Seq<ParamModel>, id: u8) -> Result<Blow, Error> {
    match player_at(s.players, id) {
        Err(e) => Err(e),
        Ok(player) => match entity_at(s.entities, player.x, player.y) {
            Err(e) => Err(e),
            Ok(entity) => if params.len() < 2 {
                Err(Error::BadParameters)
            } else {
                match param_int(params[0]) {
                    Err(e) => Err(e),
                    Ok(physical) => match param_int(params[1]) {
                        Err(e) => Err(e),
                        Ok(magic) => match model_flt_or(entity.state, "physical_def"@, 0) {
                            Err(e) => Err(e),
                            Ok(physical_def) => match model_flt_or(
                                entity.state,
                                "magic_def"@,
                                0,
                            ) {
                                Err(e) => Err(e),
                                Ok(magic_def) => {
                                    let dealt = passing(magic, magic_def) + passing(
                                        physical,
                                        physical_def,
                                    );
                                    if !(i64::MIN <= dealt <= i64::MAX) {
                                        Err(Error::Overflow)
                                    } else {
                                        match model_int(entity.state, "health"@) {
                                            Err(e) => Err(e),
                                            Ok(health) => Ok(
                                                Blow {
                                                    player,
                                                    entity,
                                                    dealt: dealt as i64,
                                                    health,
                                                },
                                            ),
                                        }
                                    }
                                },
                            },
                        },
                    },
                }
            },
        },
    }
}

/// What the striker reads about the damage dealt.
pub open spec fn took_text(name: Seq<char>, dealt: i64) -> Seq<u8> {
    utf8(name) + utf8(" took "@) + signed_decimal(dealt as int) + utf8(" damage!\n"@)
}

/// What the striker reads when the entity falls.
pub open spec fn victory_text(name: Seq<char>, quote: Seq<char>) -> Seq<u8> {
    utf8(name) + utf8(": "@) + utf8(quote) + utf8("\n"@) + utf8("You MURDERED "@) + utf8(name)
        + utf8("! CONGRATULATIONS!\n"@)
}

/// What the striker reads about the spoils: what the drop table gave,
/// where the fallen entity has one, and the experience.
pub open spec fn spoils_text(drops: Option<StatsModel>, xp: i64) -> Seq<u8> {
    match drops {
        Some(items) => utf8("you got:\n"@) + render_stats(items) + utf8("and:\n"@)
            + signed_decimal(xp as int) + utf8(" xp.\n"@),
        None => utf8("you got:\n"@) + signed_decimal(xp as int) + utf8(" xp.\n"@),
    }
}

/// The attributes of a striker who is rewarded: the spoils, if there are
/// any, go to the inventory, and the experience `xp` is added to the
/// striker's own.
pub open spec fn rewarded(data: StatsModel, drops: Option<StatsModel>, xp: i64) -> Result<
    StatsModel,
    Error,
> {
    match drops {
        Some(items) => match with_items(data, items) {
            Err(e) => Err(e),
            Ok(richer) => stat_changed(richer, "xp"@, xp as int),
        },
        None => stat_changed(data, "xp"@, xp as int),
    }
}

/// What the entity of the strike `b` leaves when it falls with the spoils
/// `drops`: it is gone, and the striker is rewarded with the spoils and
/// with the experience `xp` of the entity's `stats`, none where they name
/// none. The striker has read `text` so far.
pub open spec fn fallen_outcome(
    s: Scene,
    id: u8,
    b: Blow,
    text: Seq<u8>,
    drops: Option<StatsModel>,
) -> Result<Outcome, Error> {
    match model_box(b.entity.data(), "stats"@) {
        Err(e) => Err(e),
        Ok(stats) => match model_int_or(stats, "xp"@, 0) {
            Err(e) => Err(e),
            Ok(xp) => match rewarded(b.player.data, drops, xp) {
                Err(e) => Err(e),
                Ok(data) => Ok(
                    Outcome {
                        scene: without_entity(
                            with_player(s, id, PlayerModel { data, ..b.player }),
                            b.player.x,
                            b.player.y,
                        ),
                        out: seq![text_packet(text + spoils_text(drops, xp))],
                    },
                ),
            },
        },
    }
}

/// What a strike does when the fallen entity says `quote` and leaves the
/// spoils `drops`. An entity with more health than the strike deals loses
/// that much health. Any other falls: it is gone, and the striker gets
/// the experience `xp` of the entity's `stats` and, where the entity's
/// data hold a drop table `drops`, the spoils.
pub open spec fn dmg_outcome(
    s: Scene,
    params: Seq<ParamModel>,
    id: u8,
    quote: Seq<char>,
    drops: StatsModel,
) -> Result<Outcome, Error> {
    match blow(s, params, id) {
        Err(e) => Err(e),
        Ok(b) => {
            if b.health > b.dealt {
                if b.health - b.dealt > i64::MAX {
                    Err(Error::Overflow)
                } else {
                    Ok(
                        Outcome {
                            scene: with_entity(
                                s,
                                b.player.x,
                                b.player.y,
                                b.entity.with_state(
                                    model_set(
                                        b.entity.state,
                                        "health"@,
                                        ValueModel::Int((b.health - b.dealt) as i64),
                                    ),
                                ),
                            ),
                            out: seq![text_packet(took_text(b.entity.name, b.dealt))],
                        },
                    )
                }
            } else {
                let text = took_text(b.entity.name, b.dealt) + victory_text(b.entity.name, quote);
                if model_has(b.entity.data(), "drops"@) {
                    match model_box(b.entity.data(), "drops"@) {
                        Err(e) => Err(e),
                        Ok(_) => fallen_outcome(s, id, b, text, Some(drops)),
                    }
                } else {
                    fallen_outcome(s, id, b, text, None)
                }
            }
        },
    }
}

/// What a kill is worth: the striker who is rewarded has gained the
/// experience, whether or not there are spoils; the spoils, if there are
/// any, have gone to the inventory, and without them the inventory is as
/// it was.
pub proof fn lemma_kill_rewards(data: StatsModel, drops: Option<StatsModel>, xp: i64)
    requires
        rewarded(data, drops, xp) is Ok,
    ensures
        stat_of(data, "xp"@) is Ok,
        stat_of(rewarded(data, drops, xp)->Ok_0, "xp"@) is Ok,
        stat_of(rewarded(data, drops, xp)->Ok_0, "xp"@)->Ok_0 == stat_of(data, "xp"@)->Ok_0 + xp,
        match drops {
            Some(items) => model_box(data, "inventory"@) is Ok && model_box(
                rewarded(data, drops, xp)->Ok_0,
                "inventory"@,
            ) == items_added(model_box(data, "inventory"@)->Ok_0, items, items.len()),
            None => model_get(rewarded(data, drops, xp)->Ok_0, "inventory"@) == model_get(
                data,
                "inventory"@,
            ),
        },
{
    reveal_strlit("stats");
    reveal_strlit("inventory");
    assert("stats"@.len() == 5);
    assert("inventory"@.len() == 9);
    let richer = match drops {
        Some(items) => with_items(data, items)->Ok_0,
        None => data,
    };
    if drops is Some {
        let filled = items_added(
            model_box(data, "inventory"@)->Ok_0,
            drops->0,
            drops->0.len(),
        )->Ok_0;
        lemma_get_after_set(data, "inventory"@, ValueModel::Box(filled), "stats"@);
    }
    lemma_stat_after_change(richer, "xp"@, xp as int);
    let stats = model_box(richer, "stats"@)->Ok_0;
    let gained = ValueModel::Box(
        model_set(stats, "xp"@, ValueModel::Int((stat_of(richer, "xp"@)->Ok_0 + xp) as i64)),
    );
    lemma_get_after_set(richer, "stats"@, gained, "inventory"@);
}

/// What was read of a strike.
struct BlowRead {
    x: u16,
    y: u16,
    name: String,
    dealt: i64,
    health: i64,
}

/// Reads a strike.
fn read_blow(
    entities: &SpawnedEntities,
    params: &Vec<Param>,
    player_id: u8,
    players: &Vec<Option<Player>>,
    world: &World,
) -> (r: Result<BlowRead, Error>)
    ensures
        match blow(scene_of(*entities, *players, *world), params_model(params@), player_id) {
            Err(e) => r is Err && r->Err_0 == e,
            Ok(b) => r is Ok && r->Ok_0.x == b.player.x && r->Ok_0.y == b.player.y
                && r->Ok_0.name@ == b.entity.name && r->Ok_0.dealt == b.dealt && r->Ok_0.health
                == b.health,
        },
{
    let (x, y) = match position_of(players, player_id) {
        Ok(tile) => tile,
        Err(e) => {
            return Err(e);
        },
    };
    let entity = match get_entity(entities, x, y) {
        Some(e) => e,
        None => {
            return Err(Error::NoSuchEntity);
        },
    };
    if params.len() < 2 {
        return Err(Error::BadParameters);
    }
    let physical = match params[0].as_int() {
        Ok(v) => v,
        Err(e) => {
            return Err(e);
        },
    };
    let magic = match params[1].as_int() {
        Ok(v) => v,
        Err(e) => {
            return Err(e);
        },
    };
    let name = entity.name();
    let state = entity.state();
    let physical_def = match state.get_flt_or("physical_def", 0) {
        Ok(v) => v,
        Err(e) => {
            return Err(e);
        },
    };
    let magic_def = match state.get_flt_or("magic_def", 0) {
        Ok(v) => v,
        Err(e) => {
            return Err(e);
        },
    };
    let dealt = match pass(magic, magic_def).checked_add(pass(physical, physical_def)) {
        Some(d) => d,
        None => {
            return Err(Error::Overflow);
        },
    };
    let health = match state.get_int("health") {
        Ok(v) => v,
        Err(e) => {
            return Err(e);
        },
    };
    Ok(BlowRead { x, y, name, dealt, health })
}

/// Strikes the entity on the player's tile, as [`dmg`] does, when the
/// fallen entity says `quote` and leaves the spoils `drops`.
pub fn dmg_with(
    entities: &mut SpawnedEntities,
    params: &Vec<Param>,
    player_id: u8,
    players: &mut Vec<Option<Player>>,
    world: &mut World,
    quote: &str,
    drops: &Stats,
) -> (r: Result<PlayerOut, Error>)
    ensures
        settles(
            scene_of(*old(entities), *old(players), *old(world)),
            scene_of(*final(entities), *final(players), *final(world)),
            r,
            dmg_outcome(
                scene_of(*old(entities), *old(players), *old(world)),
                params_model(params@),
                player_id,
                quote@,
                drops@,
            ),
        ),
{
    let read = match read_blow(entities, params, player_id, players, world) {
        Ok(read) => read,
        Err(e) => {
            return Err(e);
        },
    };
    let x = read.x;
    let y = read.y;
    let mut text: Vec<u8> = Vec::new();
    push_str(&mut text, read.name.as_str());
    push_str(&mut text, " took ");
    push_signed(&mut text, read.dealt);
    push_str(&mut text, " damage!\n");
    let ghost took = took_text(read.name@, read.dealt);
    assert(text@ =~= took);
    if read.health > read.dealt {
        let left = match read.health.checked_sub(read.dealt) {
            Some(left) => left,
            None => {
                return Err(Error::Overflow);
            },
        };
        match get_entity_mut(entities, x, y) {
            Some(entity) => {
                let state = entity.mut_data();
                state.set("health", Value::Int(left));
            },
            None => {},
        }
        let mut out = PlayerOut::new();
        out.append_bytes(text);
        return Ok(out);
    }
    push_str(&mut text, read.name.as_str());
    push_str(&mut text, ": ");
    push_str(&mut text, quote);
    push_str(&mut text, "\n");
    push_str(&mut text, "You MURDERED ");
    push_str(&mut text, read.name.as_str());
    push_str(&mut text, "! CONGRATULATIONS!\n");
    let ghost fallen = took + victory_text(read.name@, quote@);
    assert(text@ =~= fallen);
    let data = match get_entity(entities, x, y) {
        Some(entity) => entity.data(),
        None => Stats::new(),
    };
    let has_drops = data.has_var("drops");
    if has_drops {
        match data.get_box("drops") {
            Ok(_) => {},
            Err(e) => {
                return Err(e);
            },
        }
    }
    let stats = match data.get_box("stats") {
        Ok(s) => s,
        Err(e) => {
            return Err(e);
        },
    };
    let xp = match stats.get_int_or("xp", 0) {
        Ok(xp) => xp,
        Err(e) => {
            return Err(e);
        },
    };
    let ghost spoils = if has_drops {
        Some(drops@)
    } else {
        None
    };
    push_str(&mut text, "you got:\n");
    if has_drops {
        drops.write_to(&mut text);
        push_str(&mut text, "and:\n");
    }
    push_signed(&mut text, xp);
    push_str(&mut text, " xp.\n");
    assert(text@ =~= fallen + spoils_text(spoils, xp));
    let id = player_id as usize;
    let mut winner = match &players[id] {
        Some(p) => p.clone(),
        None => {
            return Err(Error::NoSuchPlayer);
        },
    };
    if has_drops {
        match winner.add_items_to_inventory(drops) {
            Ok(()) => {},
            Err(e) => {
                return Err(e);
            },
        }
    }
    match winner.change_xp(xp) {
        Ok(()) => {},
        Err(e) => {
            return Err(e);
        },
    }
    players.set(id, Some(winner));
    remove_entity(world, entities, x, y);
    let mut out = PlayerOut::new();
    out.append_bytes(text);
    Ok(out)
}

/// Whether a strike that fells the entity did what it can do once the
/// quote was drawn with the result `quote`: where the entity's data hold
/// a drop table `drops`, the spoils are what some run of rolls on it gives.
pub open spec fn felled(
    before: Scene,
    params: Seq<ParamModel>,
    id: u8,
    entity: EntityModel,
    after: Scene,
    r: Result<PlayerOut, Error>,
    quote: Result<Seq<char>, Error>,
) -> bool {
    match quote {
        Err(e) => settles(before, after, r, Err(e)),
        Ok(q) => if model_has(entity.data(), "drops"@) {
            match model_box(entity.data(), "drops"@) {
                Err(e) => settles(before, after, r, Err(e)),
                Ok(table) => exists|drops: Result<StatsModel, Error>| #[trigger]
                    possible_drops(table, drops) && settles(
                        before,
                        after,
                        r,
                        match drops {
                            Err(e) => Err(e),
                            Ok(d) => dmg_outcome(before, params, id, q, d),
                        },
                    ),
            }
        } else {
            settles(before, after, r, dmg_outcome(before, params, id, q, Seq::empty()))
        },
    }
}

/// Whether a strike did what it can do: an entity that survives loses
/// health, and one that falls says one of its quotes `player_victory` and
/// leaves what its drop table gives.
pub open spec fn possible_dmg(
    before: Scene,
    params: Seq<ParamModel>,
    id: u8,
    after: Scene,
    r: Result<PlayerOut, Error>,
) -> bool {
    match blow(before, params, id) {
        Err(e) => settles(before, after, r, Err(e)),
        Ok(b) => if b.health > b.dealt {
            settles(before, after, r, dmg_outcome(before, params, id, Seq::empty(), Seq::empty()))
        } else {
            exists|quote: Result<Seq<char>, Error>| #[trigger]
                possible_quote(b.entity.data(), "player_victory"@, quote) && felled(
                    before,
                    params,
                    id,
                    b.entity,
                    after,
                    r,
                    quote,
                )
        },
    }
}

/// The spoils that were rolled decide what felling the entity did.
proof fn lemma_felled_with_drops(
    before: Scene,
    params: Seq<ParamModel>,
    id: u8,
    entity: EntityModel,
    after: Scene,
    r: Result<PlayerOut, Error>,
    q: Seq<char>,
    drops: Result<StatsModel, Error>,
)
    requires
        model_has(entity.data(), "drops"@),
        model_box(entity.data(), "drops"@) is Ok,
        possible_drops(model_box(entity.data(), "drops"@)->Ok_0, drops),
        settles(
            before,
            after,
            r,
            match drops {
                Err(e) => Err(e),
                Ok(d) => dmg_outcome(before, params, id, q, d),
            },
        ),
    ensures
        felled(before, params, id, entity, after, r, Ok(q)),
{
}

/// The quote that was drawn decides what the strike did.
proof fn lemma_possible_dmg(
    before: Scene,
    params: Seq<ParamModel>,
    id: u8,
    after: Scene,
    r: Result<PlayerOut, Error>,
    quote: Result<Seq<char>, Error>,
)
    requires
        blow(before, params, id) is Ok,
        blow(before, params, id)->Ok_0.health <= blow(before, params, id)->Ok_0.dealt,
        possible_quote(blow(before, params, id)->Ok_0.entity.data(), "player_victory"@, quote),
        felled(before, params, id, blow(before, params, id)->Ok_0.entity, after, r, quote),
    ensures
        possible_dmg(before, params, id, after, r),
{
}

/// The handler `dmg`: strikes the entity on the player's tile with the
/// physical and the magic damage of the first two parameters. The
/// entity's defences hold back their fraction of each. An entity with
/// more health than is dealt loses that much; any other says one of its
/// quotes `player_victory`, leaves its experience and, where it has a
/// drop table, what the table gives, and is gone.
pub fn dmg(
    entities: &mut SpawnedEntities,
    params: &Vec<Param>,
    player_id: u8,
    players: &mut Vec<Option<Player>>,
    world: &mut World,
) -> (r: Result<PlayerOut, Error>)
    ensures
        possible_dmg(
            scene_of(*old(entities), *old(players), *old(world)),
            params_model(params@),
            player_id,
            scene_of(*final(entities), *final(players), *final(world)),
            r,
        ),
{
    let ghost before = scene_of(*entities, *players, *world);
    let ghost given = params_model(params@);
    let read = match read_blow(entities, params, player_id, players, world) {
        Ok(read) => read,
        Err(e) => {
            return Err(e);
        },
    };
    if read.health > read.dealt {
        let none = Stats::new();
        return dmg_with(entities, params, player_id, players, world, "", &none);
    }
    let ghost struck = blow(before, given, player_id)->Ok_0.entity;
    let (drawn, data) = match get_entity(entities, read.x, read.y) {
        Some(entity) => (get_random_quote(entity, "player_victory"), entity.data()),
        None => {
            return Err(Error::NoSuchEntity);
        },
    };
    let ghost quote = string_result(drawn);
    let said = match drawn {
        Ok(q) => q,
        Err(e) => {
            proof {
                let after = scene_of(*entities, *players, *world);
                lemma_possible_dmg(before, given, player_id, after, Err(e), quote);
            }
            return Err(e);
        },
    };
    if data.has_var("drops") {
        let table = match data.get_box("drops") {
            Ok(t) => t,
            Err(e) => {
                proof {
                    let after = scene_of(*entities, *players, *world);
                    lemma_possible_dmg(before, given, player_id, after, Err(e), quote);
                }
                return Err(e);
            },
        };
        let rolled = get_items(table);
        let ghost spoils = stats_result(rolled);
        match rolled {
            Ok(drops) => {
                let r = dmg_with(
                    entities,
                    params,
                    player_id,
                    players,
                    world,
                    said.as_str(),
                    &drops,
                );
                proof {
                    let after = scene_of(*entities, *players, *world);
                    lemma_felled_with_drops(
                        before,
                        given,
                        player_id,
                        struck,
                        after,
                        r,
                        said@,
                        spoils,
                    );
                    lemma_possible_dmg(before, given, player_id, after, r, quote);
                }
                r
            },
            Err(e) => {
                proof {
                    let after = scene_of(*entities, *players, *world);
                    lemma_felled_with_drops(
                        before,
                        given,
                        player_id,
                        struck,
                        after,
                        Err(e),
                        said@,
                        spoils,
                    );
                    lemma_possible_dmg(before, given, player_id, after, Err(e), quote);
                }
                Err(e)
            },
        }
    } else {
        let none = Stats::new();
        let r = dmg_with(entities, params, player_id, players, world, said.as_str(), &none);
        proof {
            let after = scene_of(*entities, *players, *world);
            lemma_possible_dmg(before, given, player_id, after, r, quote);
        }
        r
    }
}

/// The experience that one unit of the item `item` of the catalog is
/// worth: its `xp`, nothing where it has none.
pub open spec fn item_xp(catalog: StatsModel, item: Seq<char>) -> Result<i64, Error> {
    match model_box(catalog, item) {
        Err(e) => Err(e),
        Ok(definition) => model_int_or(definition, "xp"@, 0),
    }
}

/// The line that offers one item.
pub open spec fn offer_line(item: Seq<char>, xp: i64) -> Seq<u8> {
    utf8(item) + utf8(" --> "@) + signed_decimal(xp as int) + utf8(" xp\n"@)
}

/// The lines that offer the first `n` of the goods, one for each.
pub open spec fn offer_lines(catalog: StatsModel, goods: StatsModel, n: nat) -> Result<
    Seq<u8>,
    Error,
>
    decreases n,
{
    if n == 0 || n > goods.len() {
        Ok(Seq::empty())
    } else {
        match offer_lines(catalog, goods, (n - 1) as nat) {
            Err(e) => Err(e),
            Ok(lines) => match item_xp(catalog, goods[n - 1].0) {
                Err(e) => Err(e),
                Ok(xp) => Ok(lines + offer_line(goods[n - 1].0, xp)),
            },
        }
    }
}

/// What a player reads who has traded.
pub open spec fn traded_text(num: i64, item: Seq<char>, total: i64) -> Seq<u8> {
    utf8("You traded "@) + signed_decimal(num as int) + utf8(" of "@) + utf8(item) + utf8(
        " for "@,
    ) + signed_decimal(total as int) + utf8(
        " xp. This is the best trade deal in the history of trade deals, maybe ever.\n"@,
    )
}

/// What selling `num` units of `item` does to the player `p`: the item
/// must be among the goods and the player must hold that many; then the
/// player gains the item's experience for each unit, and the units leave
/// the inventory.
pub open spec fn sold(
    catalog: StatsModel,
    goods: StatsModel,
    p: PlayerModel,
    item: Seq<char>,
    num: i64,
) -> Result<(PlayerModel, i64), Error> {
    if num < 1 {
        Err(Error::TradeTooSmall)
    } else {
        match model_box(p.data, "inventory"@) {
            Err(e) => Err(e),
            Ok(inventory) => if !model_has(goods, item) {
                Err(Error::TradeNotOffered)
            } else {
                match model_int_or(inventory, item, 0) {
                    Err(e) => Err(e),
                    Ok(have) => if num > have {
                        Err(Error::Insufficient(have))
                    } else {
                        match item_xp(catalog, item) {
                            Err(e) => Err(e),
                            Ok(xp) => if !(i64::MIN <= num * xp <= i64::MAX) {
                                Err(Error::Overflow)
                            } else {
                                match stat_changed(p.data, "xp"@, num * xp) {
                                    Err(e) => Err(e),
                                    Ok(richer) => match without_items(richer, item, num) {
                                        Err(e) => Err(e),
                                        Ok(data) => Ok(
                                            (PlayerModel { data, ..p }, (num * xp) as i64),
                                        ),
                                    },
                                }
                            },
                        }
                    },
                }
            },
        }
    }
}

/// What the handler `trade` does. Without parameters it lists the goods
/// that the entity on the player's tile takes and what each is worth.
/// With an item and a count it sells that many units. Any other
/// parameters are refused.
pub open spec fn trade_outcome(s: Scene, params: Seq<ParamModel>, id: u8) -> Result<
    Outcome,
    Error,
> {
    match player_at(s.players, id) {
        Err(e) => Err(e),
        Ok(p) => match entity_at(s.entities, p.x, p.y) {
            Err(e) => Err(e),
            Ok(entity) => match model_box(entity.data(), "trade_items"@) {
                Err(e) => Err(e),
                Ok(goods) => if params.len() == 0 {
                    match offer_lines(s.world.items, goods, goods.len()) {
                        Err(e) => Err(e),
                        Ok(lines) => Ok(
                            Outcome {
                                scene: s,
                                out: seq![
                                    text_packet(utf8("the availible trades are:\n"@) + lines),
                                ],
                            },
                        ),
                    }
                } else if params.len() == 2 {
                    match (param_string(params[0]), param_int(params[1])) {
                        (Ok(item), Ok(num)) => match sold(s.world.items, goods, p, item, num) {
                            Err(e) => Err(e),
                            Ok((after, total)) => Ok(
                                Outcome {
                                    scene: with_player(s, id, after),
                                    out: seq![text_packet(traded_text(num, item, total))],
                                },
                            ),
                        },
                        _ => Err(Error::TradeParameters),
                    }
                } else {
                    Err(Error::TradeArity)
                },
            },
        },
    }
}

/// A player who offers more units of an item than the inventory holds is
/// refused with the count that it does hold, and nothing changes: not the
/// inventory, not the experience, not the trader.
pub proof fn lemma_trade_insufficient(
    s: Scene,
    params: Seq<ParamModel>,
    id: u8,
    item: Seq<char>,
    num: i64,
    have: i64,
)
    requires
        player_at(s.players, id) is Ok,
        entity_at(
            s.entities,
            player_at(s.players, id)->Ok_0.x,
            player_at(s.players, id)->Ok_0.y,
        ) is Ok,
        model_box(
            entity_at(
                s.entities,
                player_at(s.players, id)->Ok_0.x,
                player_at(s.players, id)->Ok_0.y,
            )->Ok_0.data(),
            "trade_items"@,
        ) matches Ok(goods) && model_has(goods, item),
        params == seq![ParamModel::String(item), ParamModel::Int(num)],
        held(player_at(s.players, id)->Ok_0.data, item) == Ok::<i64, Error>(have),
        1 <= num,
        have < num,
    ensures
        trade_outcome(s, params, id) == Err::<Outcome, Error>(Error::Insufficient(have)),
{
}

/// A player who holds at least as many units of an offered item as are
/// asked sells them: the player then holds that many fewer, none where
/// all were sold, and has gained the item's experience for each unit.
/// Whatever else the player holds stays, and so do the trader and the
/// world.
pub proof fn lemma_trade_sells(
    s: Scene,
    params: Seq<ParamModel>,
    id: u8,
    item: Seq<char>,
    num: i64,
    have: i64,
    worth: i64,
    xp: i64,
    other: Seq<char>,
)
    requires
        player_at(s.players, id) is Ok,
        entity_at(
            s.entities,
            player_at(s.players, id)->Ok_0.x,
            player_at(s.players, id)->Ok_0.y,
        ) is Ok,
        model_box(
            entity_at(
                s.entities,
                player_at(s.players, id)->Ok_0.x,
                player_at(s.players, id)->Ok_0.y,
            )->Ok_0.data(),
            "trade_items"@,
        ) matches Ok(goods) && model_has(goods, item),
        params == seq![ParamModel::String(item), ParamModel::Int(num)],
        held(player_at(s.players, id)->Ok_0.data, item) == Ok::<i64, Error>(have),
        1 <= num <= have,
        item_xp(s.world.items, item) == Ok::<i64, Error>(worth),
        stat_of(player_at(s.players, id)->Ok_0.data, "xp"@) == Ok::<i64, Error>(xp),
        i64::MIN <= num * worth <= i64::MAX,
        i64::MIN <= xp + num * worth <= i64::MAX,
    ensures
        trade_outcome(s, params, id) is Ok,
        ({
            let p = player_at(s.players, id)->Ok_0;
            let after = trade_outcome(s, params, id)->Ok_0.scene;
            let q = after.players[id as int]->0;
            &&& after.entities == s.entities
            &&& after.world == s.world
            &&& after.players == s.players.update(id as int, Some(q))
            &&& q == (PlayerModel { data: q.data, ..p })
            &&& held(q.data, item) == Ok::<i64, Error>((have - num) as i64)
            &&& stat_of(q.data, "xp"@) == Ok::<i64, Error>((xp + num * worth) as i64)
            &&& other != item ==> held(q.data, other) == held(p.data, other)
        }),
{
    reveal_strlit("stats");
    reveal_strlit("inventory");
    assert("stats"@.len() == 5);
    assert("inventory"@.len() == 9);
    let p = player_at(s.players, id)->Ok_0;
    let stats = model_box(p.data, "stats"@)->Ok_0;
    let inventory = model_box(p.data, "inventory"@)->Ok_0;
    let total = (num * worth) as i64;
    let gained = ValueModel::Box(model_set(stats, "xp"@, ValueModel::Int((xp + total) as i64)));
    let richer = model_set(p.data, "stats"@, gained);
    lemma_get_after_set(p.data, "stats"@, gained, "inventory"@);
    lemma_get_after_set(stats, "xp"@, ValueModel::Int((xp + total) as i64), "xp"@);
    assert(stat_changed(p.data, "xp"@, total as int) == Ok::<StatsModel, Error>(richer));
    assert(held(richer, item) == Ok::<i64, Error>(have));
    let left = if have - num == 0 {
        model_remove(inventory, item)
    } else {
        model_set(inventory, item, ValueModel::Int((have - num) as i64))
    };
    let data = model_set(richer, "inventory"@, ValueModel::Box(left));
    assert(without_items(richer, item, num) == Ok::<StatsModel, Error>(data));
    lemma_get_after_set(richer, "inventory"@, ValueModel::Box(left), "stats"@);
    lemma_get_after_remove(inventory, item, other);
    lemma_get_after_set(inventory, item, ValueModel::Int((have - num) as i64), other);
    assert(sold(
        s.world.items,
        model_box(entity_at(s.entities, p.x, p.y)->Ok_0.data(), "trade_items"@)->Ok_0,
        p,
        item,
        num,
    ) == Ok::<(PlayerModel, i64), Error>((PlayerModel { data, ..p }, total)));
}

/// Once listing the first `n` goods has failed, listing more fails in the
/// same way.
pub proof fn lemma_offer_lines_fails(catalog: StatsModel, goods: StatsModel, n: nat, more: nat)
    requires
        n <= more <= goods.len(),
        offer_lines(catalog, goods, n) is Err,
    ensures
        offer_lines(catalog, goods, more) == offer_lines(catalog, goods, n),
    decreases more,
{
    if n < more {
        lemma_offer_lines_fails(catalog, goods, n, (more - 1) as nat);
    }
}

/// The experience that one unit of `item` is worth.
fn worth(world: &World, item: &str) -> (r: Result<i64, Error>)
    ensures
        r == item_xp(world@.items, item@),
{
    match world.items().get_box(item) {
        Ok(definition) => definition.get_int_or("xp", 0),
        Err(e) => Err(e),
    }
}

/// The handler `trade` of a trading mob. Without parameters it lists the
/// goods that the mob on the player's tile takes and the experience
/// that each is worth. With an item and a count it sells that many units
/// of the item for their experience. Any other parameters are refused.
#[verifier::loop_isolation(false)]
pub fn trade(
    entities: &mut SpawnedEntities,
    params: &Vec<Param>,
    player_id: u8,
    players: &mut Vec<Option<Player>>,
    world: &mut World,
) -> (r: Result<PlayerOut, Error>)
    ensures
        settles(
            scene_of(*old(entities), *old(players), *old(world)),
            scene_of(*final(entities), *final(players), *final(world)),
            r,
            trade_outcome(
                scene_of(*old(entities), *old(players), *old(world)),
                params_model(params@),
                player_id,
            ),
        ),
{
    let (x, y) = match position_of(players, player_id) {
        Ok(tile) => tile,
        Err(e) => {
            return Err(e);
        },
    };
    let data = match get_entity(entities, x, y) {
        Some(entity) => entity.data(),
        None => {
            return Err(Error::NoSuchEntity);
        },
    };
    let goods = match data.get_box("trade_items") {
        Ok(g) => g,
        Err(e) => {
            return Err(e);
        },
    };
    let mut text: Vec<u8> = Vec::new();
    if params.len() == 0 {
        push_str(&mut text, "the availible trades are:\n");
        let ghost head = text@;
        let mut i: usize = 0;
        while i < goods.len()
            invariant
                i <= goods@.len(),
                offer_lines(world@.items, goods@, i as nat) is Ok,
                text@ == head + offer_lines(world@.items, goods@, i as nat)->Ok_0,
            decreases goods@.len() - i,
        {
            let item = goods.name_at(i);
            let xp = match worth(world, item.as_str()) {
                Ok(xp) => xp,
                Err(e) => {
                    proof {
                        lemma_offer_lines_fails(
                            world@.items,
                            goods@,
                            (i + 1) as nat,
                            goods@.len(),
                        );
                    }
                    return Err(e);
                },
            };
            let ghost lines = offer_lines(world@.items, goods@, i as nat)->Ok_0;
            push_str(&mut text, item.as_str());
            push_str(&mut text, " --> ");
            push_signed(&mut text, xp);
            push_str(&mut text, " xp\n");
            assert(text@ =~= head + (lines + offer_line(item@, xp)));
            i = i + 1;
        }
    } else if params.len() == 2 {
        let item = match params[0].as_string() {
            Ok(item) => item,
            Err(_) => {
                return Err(Error::TradeParameters);
            },
        };
        let num = match params[1].as_int() {
            Ok(num) => num,
            Err(_) => {
                return Err(Error::TradeParameters);
            },
        };
        if num < 1 {
            return Err(Error::TradeTooSmall);
        }
        let id = player_id as usize;
        let mut seller = match &players[id] {
            Some(p) => p.clone(),
            None => {
                return Err(Error::NoSuchPlayer);
            },
        };
        match seller.data().get_box("inventory") {
            Ok(_) => {},
            Err(e) => {
                return Err(e);
            },
        }
        if !goods.has_var(item.as_str()) {
            return Err(Error::TradeNotOffered);
        }
        let have = match seller.count_item(item.as_str()) {
            Ok(have) => have,
            Err(e) => {
                return Err(e);
            },
        };
        if num > have {
            return Err(Error::Insufficient(have));
        }
        let xp = match worth(world, item.as_str()) {
            Ok(xp) => xp,
            Err(e) => {
                return Err(e);
            },
        };
        let total = match num.checked_mul(xp) {
            Some(total) => total,
            None => {
                return Err(Error::Overflow);
            },
        };
        match seller.change_xp(total) {
            Ok(()) => {},
            Err(e) => {
                return Err(e);
            },
        }
        match seller.remove_items(item.as_str(), num) {
            Ok(()) => {},
            Err(e) => {
                return Err(e);
            },
        }
        players.set(id, Some(seller));
        push_str(&mut text, "You traded ");
        push_signed(&mut text, num);
        push_str(&mut text, " of ");
        push_str(&mut text, item.as_str());
        push_str(&mut text, " for ");
        push_signed(&mut text, total);
        push_str(
            &mut text,
            " xp. This is the best trade deal in the history of trade deals, maybe ever.\n",
        );
        assert(text@ =~= traded_text(num, item@, total));
    } else {
        return Err(Error::TradeArity);
    }
    let mut out = PlayerOut::new();
    out.append_bytes(text);
    Ok(out)
}

} // verus!
