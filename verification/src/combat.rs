//! A mob's attack: rounds of strikes until the player has caught up with
//! the mob's speed or has died.

use crate::dice::random_index;
use crate::entities::{get_entity, EntityModel, SpawnedEntities, Spawnable};
use crate::error::Error;
use crate::handlers::{get_random_quote, possible_quote, string_result};
use crate::player::{lemma_stat_after_change, stat_changed, stat_of, Player, PlayerModel};
use crate::playerout::{joined, text_packet, PacketModel, PlayerOut};
use crate::scene::{
    entity_at, player_at, position_of, scene_of, settles, with_player, Outcome, Scene,
};
use crate::stats::{
    model_box, model_box_or_empty, model_has, model_int_or, model_get_or, value_longstring, Stats,
    StatsModel, ValueModel,
};
use crate::text::{push_signed, push_str, signed_decimal, utf8};
use crate::world::World;
use vstd::prelude::*;

verus! {

/// What chance decides in one round: the quote that the mob says, the
/// tool it reaches for, and the ability of that tool that it uses.
pub struct Strike {
    pub quote: Result<Seq<char>, Error>,
    pub weapon: int,
    pub ability: int,
}

/// How a fight stands.
pub struct Fight {
    /// The player's attributes.
    pub data: StatsModel,
    /// What the player has read so far.
    pub text: Seq<u8>,
    /// The rounds fought.
    pub rounds: nat,
    /// The player's speed, once for each round fought.
    pub covered: int,
    /// Whether the player has died.
    pub dead: bool,
}

/// How one round ends.
pub struct RoundEnd {
    /// The player's attributes.
    pub data: StatsModel,
    /// What the player has read in the round.
    pub text: Seq<u8>,
    /// Whether the player has died.
    pub dead: bool,
}

/// What the player reads when the mob strikes with its bare force.
pub open spec fn strike_text(name: Seq<char>, quote: Seq<char>, base_dmg: i64) -> Seq<u8> {
    utf8(name) + utf8(": "@) + utf8(quote) + utf8("\n"@) + utf8(name) + utf8(" did "@)
        + signed_decimal(base_dmg as int) + utf8(" damage to you.\n"@)
}

/// What the player reads when the mob uses an ability of a tool.
pub open spec fn ability_text(
    name: Seq<char>,
    weapon: Seq<char>,
    ability: Seq<char>,
    total: i64,
) -> Seq<u8> {
    utf8(name) + utf8(" equipped item "@) + utf8(weapon) + utf8("\n"@) + utf8(name) + utf8(
        " used "@,
    ) + utf8(ability) + utf8(" and dealt "@) + signed_decimal(total as int) + utf8(
        " damage.\n"@,
    )
}

/// What the player reads when the mob reaches for a tool without abilities.
pub open spec fn idle_text(name: Seq<char>, weapon: Seq<char>) -> Seq<u8> {
    utf8(name) + utf8(" chose to use "@) + utf8(weapon) + utf8(
        ", which has no abilities. Lucky you.\n"@,
    )
}

/// The abilities of the tool at the place `weapon` of the mob's tools, if
/// the catalog gives it any.
pub open spec fn abilities_of(catalog: StatsModel, tools: StatsModel, weapon: int) -> Result<
    Option<StatsModel>,
    Error,
> {
    if !(0 <= weapon < tools.len()) {
        Err(Error::BadOdds)
    } else {
        match model_box_or_empty(catalog, tools[weapon].0) {
            Err(e) => Err(e),
            Ok(definition) => if model_has(definition, "abilities"@) {
                match model_box(definition, "abilities"@) {
                    Ok(abilities) => Ok(Some(abilities)),
                    Err(e) => Err(e),
                }
            } else {
                Ok(None)
            },
        }
    }
}

/// What the tool does in a round: a mob without tools does nothing more;
/// a tool without abilities is shown and does nothing; of a tool with
/// abilities the one at the place `ability` takes its physical and magic
/// damage off the player's health.
pub open spec fn tool_strike(
    name: Seq<char>,
    catalog: StatsModel,
    tools: StatsModel,
    data: StatsModel,
    weapon: int,
    ability: int,
) -> Result<(StatsModel, Seq<u8>), Error> {
    if tools.len() == 0 {
        Ok((data, Seq::empty()))
    } else {
        match abilities_of(catalog, tools, weapon) {
            Err(e) => Err(e),
            Ok(None) => Ok((data, idle_text(name, tools[weapon].0))),
            Ok(Some(abilities)) => if !(0 <= ability < abilities.len()) {
                Err(Error::BadOdds)
            } else {
                match model_box(abilities, abilities[ability].0) {
                    Err(e) => Err(e),
                    Ok(used) => match model_int_or(used, "physical_dmg"@, 0) {
                        Err(e) => Err(e),
                        Ok(physical) => match model_int_or(used, "magic_dmg"@, 0) {
                            Err(e) => Err(e),
                            Ok(magic) => if !(i64::MIN < physical + magic <= i64::MAX) {
                                Err(Error::Overflow)
                            } else {
                                match stat_changed(data, "health"@, -(physical + magic)) {
                                    Err(e) => Err(e),
                                    Ok(hurt) => Ok(
                                        (
                                            hurt,
                                            ability_text(
                                                name,
                                                tools[weapon].0,
                                                abilities[ability].0,
                                                (physical + magic) as i64,
                                            ),
                                        ),
                                    ),
                                }
                            },
                        },
                    },
                }
            },
        }
    }
}

/// One round against a mob called `name` that shows the data `shown`,
/// for a player with the attributes `data`: the mob says its quote and
/// takes `base_dmg` off the player's health, its tool does what it does,
/// and a player whose health is spent has died.
#[verifier::opaque]
pub open spec fn round(
    name: Seq<char>,
    shown: StatsModel,
    catalog: StatsModel,
    data: StatsModel,
    base_dmg: i64,
    strike: Strike,
) -> Result<RoundEnd, Error> {
    match strike.quote {
        Err(e) => Err(e),
        Ok(quote) => if base_dmg == i64::MIN {
            Err(Error::Overflow)
        } else {
            match stat_changed(data, "health"@, -base_dmg) {
                Err(e) => Err(e),
                Ok(hurt) => match model_box(shown, "tools"@) {
                    Err(e) => Err(e),
                    Ok(tools) => match tool_strike(
                        name,
                        catalog,
                        tools,
                        hurt,
                        strike.weapon,
                        strike.ability,
                    ) {
                        Err(e) => Err(e),
                        Ok((after, more)) => match stat_of(after, "health"@) {
                            Err(e) => Err(e),
                            Ok(health) => Ok(
                                RoundEnd {
                                    data: after,
                                    text: strike_text(name, quote, base_dmg) + more + (if health
                                        <= 0 {
                                        utf8("YOU DIED.\n"@)
                                    } else {
                                        Seq::empty()
                                    }),
                                    dead: health <= 0,
                                },
                            ),
                        },
                    },
                },
            }
        },
    }
}

/// Whether a fight that stands at `f` is over: the player has died, or
/// has caught up with the mob's speed.
pub open spec fn over(f: Fight, entity_speed: i64) -> bool {
    f.dead || f.covered >= entity_speed
}

/// How the fight stands after the first `n` of the strikes `draws`; a
/// strike after the fight is over changes nothing.
pub open spec fn fought(
    name: Seq<char>,
    shown: StatsModel,
    catalog: StatsModel,
    data: StatsModel,
    base_dmg: i64,
    entity_speed: i64,
    player_speed: i64,
    draws: Seq<Strike>,
    n: nat,
) -> Result<Fight, Error>
    decreases n,
{
    if n == 0 || n > draws.len() {
        Ok(Fight { data, text: Seq::empty(), rounds: 0, covered: 0, dead: false })
    } else {
        match fought(
            name,
            shown,
            catalog,
            data,
            base_dmg,
            entity_speed,
            player_speed,
            draws,
            (n - 1) as nat,
        ) {
            Err(e) => Err(e),
            Ok(f) => if over(f, entity_speed) {
                Ok(f)
            } else {
                match round(name, shown, catalog, f.data, base_dmg, draws[n - 1]) {
                    Err(e) => Err(e),
                    Ok(end) => Ok(
                        Fight {
                            data: end.data,
                            text: f.text + end.text,
                            rounds: f.rounds + 1,
                            covered: f.covered + player_speed,
                            dead: end.dead,
                        },
                    ),
                }
            },
        }
    }
}

/// What a fight is about, once everything it depends on was read.
pub struct Duel {
    /// The player who is attacked.
    pub player: PlayerModel,
    /// The mob that attacks.
    pub entity: EntityModel,
    /// The mob's speed and bare force.
    pub entity_speed: i64,
    pub base_dmg: i64,
    /// The player's speed.
    pub player_speed: i64,
}

/// Reads a fight: the player must exist and an entity must stand on its
/// tile; the entity's `speed` and `dmg` are none where they are missing;
/// the player must have a `speed`, and a positive one if the mob has any.
pub open spec fn duel(s: Scene, id: u8) -> Result<Duel, Error> {
    match player_at(s.players, id) {
        Err(e) => Err(e),
        Ok(player) => match entity_at(s.entities, player.x, player.y) {
            Err(e) => Err(e),
            Ok(entity) => match model_int_or(entity.state, "speed"@, 0) {
                Err(e) => Err(e),
                Ok(entity_speed) => match model_int_or(entity.state, "dmg"@, 0) {
                    Err(e) => Err(e),
                    Ok(base_dmg) => match stat_of(player.data, "speed"@) {
                        Err(e) => Err(e),
                        Ok(player_speed) => if entity_speed > 0 && player_speed <= 0 {
                            Err(Error::NoProgress)
                        } else {
                            Ok(Duel { player, entity, entity_speed, base_dmg, player_speed })
                        },
                    },
                },
            },
        },
    }
}

/// The packets that a fight leaves: one with all that the player has
/// read, none where no round was fought.
pub open spec fn fight_packets(f: Fight) -> Seq<PacketModel> {
    if f.rounds > 0 {
        seq![text_packet(f.text)]
    } else {
        Seq::empty()
    }
}

/// What the handler `attack` does when chance decides the strikes
/// `draws`: rounds are fought until the player has caught up with the
/// mob's speed or has died, and the player is left with what the rounds
/// took. Strikes that run out before the fight is over are refused.
pub open spec fn attack_outcome(s: Scene, id: u8, draws: Seq<Strike>) -> Result<Outcome, Error> {
    match duel(s, id) {
        Err(e) => Err(e),
        Ok(d) => match fought(
            d.entity.name,
            d.entity.data(),
            s.world.items,
            d.player.data,
            d.base_dmg,
            d.entity_speed,
            d.player_speed,
            draws,
            draws.len(),
        ) {
            Err(e) => Err(e),
            Ok(f) => if over(f, d.entity_speed) {
                Ok(
                    Outcome {
                        scene: with_player(s, id, PlayerModel { data: f.data, ..d.player }),
                        out: fight_packets(f),
                    },
                )
            } else {
                Err(Error::BadOdds)
            },
        },
    }
}

/// Whether the strike `strike` is one that chance can decide for a mob
/// that shows the data `shown`: its quote is one of the mob's quotes `attack`, its tool one
/// of the mob's tools, and its ability one of that tool's.
pub open spec fn fair_strike(shown: StatsModel, catalog: StatsModel, strike: Strike) -> bool {
    &&& possible_quote(shown, "attack"@, strike.quote)
    &&& match model_box(shown, "tools"@) {
        Ok(tools) => {
            &&& tools.len() == 0 || 0 <= strike.weapon < tools.len()
            &&& match abilities_of(catalog, tools, strike.weapon) {
                Ok(Some(abilities)) => abilities.len() == 0 || 0 <= strike.ability
                    < abilities.len(),
                _ => true,
            }
        },
        Err(_) => true,
    }
}

/// Whether the strikes `draws` see the fight `d` through: after them the
/// fight is over, unless a round has failed.
pub open spec fn ends_fight(d: Duel, catalog: StatsModel, draws: Seq<Strike>) -> bool {
    match fought(
        d.entity.name,
        d.entity.data(),
        catalog,
        d.player.data,
        d.base_dmg,
        d.entity_speed,
        d.player_speed,
        draws,
        draws.len(),
    ) {
        Err(_) => true,
        Ok(f) => over(f, d.entity_speed),
    }
}

/// Whether an attack did what it can do: what it does for some run of
/// strikes that chance can decide and that sees the fight through.
pub open spec fn possible_attack(
    before: Scene,
    id: u8,
    after: Scene,
    r: Result<PlayerOut, Error>,
) -> bool {
    match duel(before, id) {
        Err(e) => settles(before, after, r, Err(e)),
        Ok(d) => exists|draws: Seq<Strike>| #[trigger]
            settles(before, after, r, attack_outcome(before, id, draws)) && ends_fight(
                d,
                before.world.items,
                draws,
            ) && forall|i: int|
                0 <= i < draws.len() ==> fair_strike(d.entity.data(), before.world.items, draws[i]),
    }
}

/// What was read of a fight.
struct DuelRead {
    x: u16,
    y: u16,
    entity_speed: i64,
    base_dmg: i64,
    player_speed: i64,
}

/// Reads a fight.
fn read_duel(
    entities: &SpawnedEntities,
    player_id: u8,
    players: &Vec<Option<Player>>,
    world: &World,
) -> (r: Result<DuelRead, Error>)
    ensures
        match duel(scene_of(*entities, *players, *world), player_id) {
            Err(e) => r is Err && r->Err_0 == e,
            Ok(d) => r is Ok && r->Ok_0.x == d.player.x && r->Ok_0.y == d.player.y
                && r->Ok_0.entity_speed == d.entity_speed && r->Ok_0.base_dmg == d.base_dmg
                && r->Ok_0.player_speed == d.player_speed,
        },
{
    let (x, y) = match position_of(players, player_id) {
        Ok(tile) => tile,
        Err(e) => {
            return Err(e);
        },
    };
    let entity = match get_entity(entities, x, y) {
        Some(e) => e,
        None => {
            return Err(Error::NoSuchEntity);
        },
    };
    let state = entity.state();
    let entity_speed = match state.get_int_or("speed", 0) {
        Ok(v) => v,
        Err(e) => {
            return Err(e);
        },
    };
    let base_dmg = match state.get_int_or("dmg", 0) {
        Ok(v) => v,
        Err(e) => {
            return Err(e);
        },
    };
    let player_speed = match &players[player_id as usize] {
        Some(p) => match p.stat("speed") {
            Ok(v) => v,
            Err(e) => {
                return Err(e);
            },
        },
        None => {
            return Err(Error::NoSuchPlayer);
        },
    };
    if entity_speed > 0 && player_speed <= 0 {
        return Err(Error::NoProgress);
    }
    Ok(DuelRead { x, y, entity_speed, base_dmg, player_speed })
}

/// How many abilities the tool at the place `weapon` of the tools has;
/// none where it has no abilities or cannot be read.
pub fn count_abilities(world: &World, tools: &Stats, weapon: usize) -> (n: usize)
    ensures
        n == (match abilities_of(world@.items, tools@, weapon as int) {
            Ok(Some(abilities)) => abilities.len(),
            _ => 0,
        }),
{
    if weapon >= tools.len() {
        return 0;
    }
    let definition = match world.items().get(tools.name_at(weapon).as_str()) {
        Ok(v) => match v.as_box() {
            Ok(d) => d,
            Err(_) => {
                return 0;
            },
        },
        Err(_) => {
            return 0;
        },
    };
    if definition.has_var("abilities") {
        match definition.get_box("abilities") {
            Ok(abilities) => abilities.len(),
            Err(_) => 0,
        }
    } else {
        0
    }
}

/// Lets the tool at the place `weapon` do what it does in a round.
fn strike_with_tool(
    name: &str,
    world: &World,
    tools: &Stats,
    fighter: &mut Player,
    text: &mut Vec<u8>,
    weapon: usize,
    ability: usize,
) -> (r: Result<(), Error>)
    ensures
        match tool_strike(
            name@,
            world@.items,
            tools@,
            old(fighter)@.data,
            weapon as int,
            ability as int,
        ) {
            Ok((data, more)) => r is Ok && final(fighter)@ == (PlayerModel {
                data,
                ..old(fighter)@
            }) && final(text)@ == old(text)@ + more,
            Err(e) => r == Err::<(), Error>(e),
        },
{
    if tools.len() == 0 {
        assert(text@ =~= old(text)@ + Seq::<u8>::empty());
        return Ok(());
    }
    if weapon >= tools.len() {
        return Err(Error::BadOdds);
    }
    let weapon_name = tools.name_at(weapon);
    let none = Stats::new();
    let definition = match world.items().get(weapon_name.as_str()) {
        Ok(v) => match v.as_box() {
            Ok(d) => d,
            Err(e) => {
                return Err(e);
            },
        },
        Err(_) => &none,
    };
    if definition.has_var("abilities") {
        let abilities = match definition.get_box("abilities") {
            Ok(a) => a,
            Err(e) => {
                return Err(e);
            },
        };
        if ability >= abilities.len() {
            return Err(Error::BadOdds);
        }
        let ability_name = abilities.name_at(ability);
        let used = match abilities.get_box(ability_name.as_str()) {
            Ok(u) => u,
            Err(e) => {
                return Err(e);
            },
        };
        let physical = match used.get_int_or("physical_dmg", 0) {
            Ok(v) => v,
            Err(e) => {
                return Err(e);
            },
        };
        let magic = match used.get_int_or("magic_dmg", 0) {
            Ok(v) => v,
            Err(e) => {
                return Err(e);
            },
        };
        let total = match physical.checked_add(magic) {
            Some(t) => t,
            None => {
                return Err(Error::Overflow);
            },
        };
        if total == i64::MIN {
            return Err(Error::Overflow);
        }
        match fighter.change_stat("health", -total) {
            Ok(()) => {},
            Err(e) => {
                return Err(e);
            },
        }
        push_str(text, name);
        push_str(text, " equipped item ");
        push_str(text, weapon_name.as_str());
        push_str(text, "\n");
        push_str(text, name);
        push_str(text, " used ");
        push_str(text, ability_name.as_str());
        push_str(text, " and dealt ");
        push_signed(text, total);
        push_str(text, " damage.\n");
        assert(text@ =~= old(text)@ + ability_text(name@, weapon_name@, ability_name@, total));
    } else {
        push_str(text, name);
        push_str(text, " chose to use ");
        push_str(text, weapon_name.as_str());
        push_str(text, ", which has no abilities. Lucky you.\n");
        assert(text@ =~= old(text)@ + idle_text(name@, weapon_name@));
    }
    Ok(())
}

/// Fights one round against a mob called `name` that shows the data
/// `shown`: the mob says `quote`, takes `base_dmg` off the health of
/// `fighter` and lets the tool at the place `weapon` use its ability at
/// the place `ability`. What the player reads goes to the end of `text`.
/// Says whether the player has died. Where the round fails, `fighter`
/// and `text` are of no more use.
pub fn fight_round(
    name: &str,
    shown: &Stats,
    world: &World,
    fighter: &mut Player,
    text: &mut Vec<u8>,
    base_dmg: i64,
    quote: &str,
    weapon: usize,
    ability: usize,
) -> (r: Result<bool, Error>)
    ensures
        match round(
            name@,
            shown@,
            world@.items,
            old(fighter)@.data,
            base_dmg,
            Strike { quote: Ok(quote@), weapon: weapon as int, ability: ability as int },
        ) {
            Ok(end) => r == Ok::<bool, Error>(end.dead) && final(fighter)@ == (PlayerModel {
                data: end.data,
                ..old(fighter)@
            }) && final(text)@ == old(text)@ + end.text,
            Err(e) => r == Err::<bool, Error>(e),
        },
{
    reveal(round);
    if base_dmg == i64::MIN {
        return Err(Error::Overflow);
    }
    match fighter.change_stat("health", -base_dmg) {
        Ok(()) => {},
        Err(e) => {
            return Err(e);
        },
    }
    push_str(text, name);
    push_str(text, ": ");
    push_str(text, quote);
    push_str(text, "\n");
    push_str(text, name);
    push_str(text, " did ");
    push_signed(text, base_dmg);
    push_str(text, " damage to you.\n");
    let ghost struck = old(text)@ + strike_text(name@, quote@, base_dmg);
    assert(text@ =~= struck);
    let tools = match shown.get_box("tools") {
        Ok(t) => t,
        Err(e) => {
            return Err(e);
        },
    };
    match strike_with_tool(name, world, tools, fighter, text, weapon, ability) {
        Ok(()) => {},
        Err(e) => {
            return Err(e);
        },
    }
    let ghost armed = text@;
    let dead = match fighter.is_dead() {
        Ok(dead) => dead,
        Err(e) => {
            return Err(e);
        },
    };
    if dead {
        push_str(text, "YOU DIED.\n");
    }
    assert(text@ =~= old(text)@ + round(
        name@,
        shown@,
        world@.items,
        old(fighter)@.data,
        base_dmg,
        Strike { quote: Ok(quote@), weapon: weapon as int, ability: ability as int },
    )->Ok_0.text);
    Ok(dead)
}

/// After any number of strikes the player has covered its speed once for
/// each round fought, the last round began before the player had caught
/// up, and where no round was fought nothing has happened.
pub proof fn lemma_fought_covers(
    name: Seq<char>,
    shown: StatsModel,
    catalog: StatsModel,
    data: StatsModel,
    base_dmg: i64,
    entity_speed: i64,
    player_speed: i64,
    draws: Seq<Strike>,
    n: nat,
)
    requires
        fought(name, shown, catalog, data, base_dmg, entity_speed, player_speed, draws, n) is Ok,
    ensures
        ({
            let f = fought(
                name,
                shown,
                catalog,
                data,
                base_dmg,
                entity_speed,
                player_speed,
                draws,
                n,
            )->Ok_0;
            &&& f.covered == f.rounds * player_speed
            &&& f.rounds > 0 ==> f.covered - player_speed < entity_speed
            &&& f.rounds == 0 ==> f.data == data && f.text =~= Seq::<u8>::empty() && !f.dead
        }),
    decreases n,
{
    if !(n == 0 || n > draws.len()) {
        let earlier = fought(
            name,
            shown,
            catalog,
            data,
            base_dmg,
            entity_speed,
            player_speed,
            draws,
            (n - 1) as nat,
        );
        lemma_fought_covers(
            name,
            shown,
            catalog,
            data,
            base_dmg,
            entity_speed,
            player_speed,
            draws,
            (n - 1) as nat,
        );
        let f = earlier->Ok_0;
        assert((f.rounds + 1) * player_speed == f.rounds * player_speed + player_speed)
            by (nonlinear_arith);
    }
}

/// How many rounds an attack lasts: a player with a positive speed who
/// lives through the fight `d` has fought just as many rounds as it takes
/// to cover the mob's speed, the mob's speed divided by the player's and
/// rounded up. Against a mob without speed no round is fought and
/// nothing happens.
pub proof fn lemma_attack_rounds(d: Duel, catalog: StatsModel, draws: Seq<Strike>)
    requires
        d.player_speed >= 1,
        ends_fight(d, catalog, draws),
        fought(
            d.entity.name,
            d.entity.data(),
            catalog,
            d.player.data,
            d.base_dmg,
            d.entity_speed,
            d.player_speed,
            draws,
            draws.len(),
        ) matches Ok(f) && !f.dead,
    ensures
        ({
            let f = fought(
                d.entity.name,
                d.entity.data(),
                catalog,
                d.player.data,
                d.base_dmg,
                d.entity_speed,
                d.player_speed,
                draws,
                draws.len(),
            )->Ok_0;
            if d.entity_speed <= 0 {
                f.rounds == 0 && f.data == d.player.data && fight_packets(f)
                    =~= Seq::<PacketModel>::empty()
            } else {
                (f.rounds - 1) * d.player_speed < d.entity_speed <= f.rounds * d.player_speed
            }
        }),
{
    lemma_fought_covers(
        d.entity.name,
        d.entity.data(),
        catalog,
        d.player.data,
        d.base_dmg,
        d.entity_speed,
        d.player_speed,
        draws,
        draws.len(),
    );
    let f = fought(
        d.entity.name,
        d.entity.data(),
        catalog,
        d.player.data,
        d.base_dmg,
        d.entity_speed,
        d.player_speed,
        draws,
        draws.len(),
    )->Ok_0;
    assert((f.rounds - 1) * d.player_speed == f.rounds * d.player_speed - d.player_speed)
        by (nonlinear_arith);
    if f.rounds == 0 {
        assert(f.rounds * d.player_speed == 0) by (nonlinear_arith)
            requires
                f.rounds == 0,
        ;
    }
}

/// A fight in which the player dies stops in that round: at least one
/// round was fought, and what the player has read ends with the line of
/// the death.
pub proof fn lemma_death_ends_fight(
    name: Seq<char>,
    shown: StatsModel,
    catalog: StatsModel,
    data: StatsModel,
    base_dmg: i64,
    entity_speed: i64,
    player_speed: i64,
    draws: Seq<Strike>,
    n: nat,
)
    requires
        fought(name, shown, catalog, data, base_dmg, entity_speed, player_speed, draws, n)
            matches Ok(f) && f.dead,
    ensures
        ({
            let f = fought(
                name,
                shown,
                catalog,
                data,
                base_dmg,
                entity_speed,
                player_speed,
                draws,
                n,
            )->Ok_0;
            &&& f.rounds > 0
            &&& over(f, entity_speed)
            &&& exists|read: Seq<u8>| f.text == #[trigger] (read + utf8("YOU DIED.\n"@))
        }),
    decreases n,
{
    if !(n == 0 || n > draws.len()) {
        let earlier = fought(
            name,
            shown,
            catalog,
            data,
            base_dmg,
            entity_speed,
            player_speed,
            draws,
            (n - 1) as nat,
        )->Ok_0;
        if over(earlier, entity_speed) {
            lemma_death_ends_fight(
                name,
                shown,
                catalog,
                data,
                base_dmg,
                entity_speed,
                player_speed,
                draws,
                (n - 1) as nat,
            );
        } else {
            reveal(round);
            let end = round(name, shown, catalog, earlier.data, base_dmg, draws[n - 1])->Ok_0;
            let f = fought(
                name,
                shown,
                catalog,
                data,
                base_dmg,
                entity_speed,
                player_speed,
                draws,
                n,
            )->Ok_0;
            let quote = draws[n - 1].quote->Ok_0;
            let hurt = stat_changed(earlier.data, "health"@, -base_dmg)->Ok_0;
            let tools = model_box(shown, "tools"@)->Ok_0;
            let struck = tool_strike(
                name,
                catalog,
                tools,
                hurt,
                draws[n - 1].weapon,
                draws[n - 1].ability,
            )->Ok_0;
            let read = earlier.text + strike_text(name, quote, base_dmg) + struck.1;
            assert(f.text =~= read + utf8("YOU DIED.\n"@));
        }
    }
}

/// A mob without tools takes its bare force off the player's health once
/// in every round.
pub proof fn lemma_bare_fight_health(
    name: Seq<char>,
    shown: StatsModel,
    catalog: StatsModel,
    data: StatsModel,
    base_dmg: i64,
    entity_speed: i64,
    player_speed: i64,
    draws: Seq<Strike>,
    n: nat,
)
    requires
        model_box(shown, "tools"@) matches Ok(tools) && tools.len() == 0,
        stat_of(data, "health"@) is Ok,
        fought(name, shown, catalog, data, base_dmg, entity_speed, player_speed, draws, n) is Ok,
    ensures
        ({
            let f = fought(
                name,
                shown,
                catalog,
                data,
                base_dmg,
                entity_speed,
                player_speed,
                draws,
                n,
            )->Ok_0;
            &&& stat_of(f.data, "health"@) is Ok
            &&& stat_of(f.data, "health"@)->Ok_0 == stat_of(data, "health"@)->Ok_0 - f.rounds
                * base_dmg
        }),
    decreases n,
{
    if !(n == 0 || n > draws.len()) {
        lemma_bare_fight_health(
            name,
            shown,
            catalog,
            data,
            base_dmg,
            entity_speed,
            player_speed,
            draws,
            (n - 1) as nat,
        );
        let earlier = fought(
            name,
            shown,
            catalog,
            data,
            base_dmg,
            entity_speed,
            player_speed,
            draws,
            (n - 1) as nat,
        )->Ok_0;
        if !over(earlier, entity_speed) {
            reveal(round);
            lemma_stat_after_change(earlier.data, "health"@, -base_dmg);
            let hurt = stat_changed(earlier.data, "health"@, -base_dmg)->Ok_0;
            let tools = model_box(shown, "tools"@)->Ok_0;
            assert(tool_strike(
                name,
                catalog,
                tools,
                hurt,
                draws[n - 1].weapon,
                draws[n - 1].ability,
            ) == Ok::<(StatsModel, Seq<u8>), Error>((hurt, Seq::empty())));
            let end = round(name, shown, catalog, earlier.data, base_dmg, draws[n - 1])->Ok_0;
            assert(end.data == hurt);
            assert((earlier.rounds + 1) * base_dmg == earlier.rounds * base_dmg + base_dmg)
                by (nonlinear_arith);
        }
    } else {
        assert(0 * base_dmg == 0) by (nonlinear_arith);
    }
}

/// What chance has decided for one round.
pub struct StrikeDraw {
    /// The quote that the mob says.
    pub quote: String,
    /// The place of the tool it reaches for, among its tools.
    pub weapon: usize,
    /// The place of the ability it uses, among the abilities of the tool.
    pub ability: usize,
}

impl View for StrikeDraw {
    type V = Strike;

    open spec fn view(&self) -> Strike {
        Strike { quote: Ok(self.quote@), weapon: self.weapon as int, ability: self.ability as int }
    }
}

/// What a run of decided strikes stands for.
pub open spec fn draws_model(draws: Seq<StrikeDraw>) -> Seq<Strike> {
    Seq::new(draws.len(), |i: int| draws[i]@)
}

/// The first strikes of a run lead to where they lead alone.
pub proof fn lemma_fought_prefix(
    name: Seq<char>,
    shown: StatsModel,
    catalog: StatsModel,
    data: StatsModel,
    base_dmg: i64,
    entity_speed: i64,
    player_speed: i64,
    short: Seq<Strike>,
    long: Seq<Strike>,
    n: nat,
)
    requires
        n <= short.len() <= long.len(),
        forall|i: int| 0 <= i < short.len() ==> short[i] == long[i],
    ensures
        fought(name, shown, catalog, data, base_dmg, entity_speed, player_speed, long, n)
            == fought(name, shown, catalog, data, base_dmg, entity_speed, player_speed, short, n),
    decreases n,
{
    if n > 0 {
        lemma_fought_prefix(
            name,
            shown,
            catalog,
            data,
            base_dmg,
            entity_speed,
            player_speed,
            short,
            long,
            (n - 1) as nat,
        );
    }
}

/// Once the first `n` strikes have failed, more strikes fail in the same way.
pub proof fn lemma_fought_fails(
    name: Seq<char>,
    shown: StatsModel,
    catalog: StatsModel,
    data: StatsModel,
    base_dmg: i64,
    entity_speed: i64,
    player_speed: i64,
    draws: Seq<Strike>,
    n: nat,
    more: nat,
)
    requires
        n <= more <= draws.len(),
        fought(name, shown, catalog, data, base_dmg, entity_speed, player_speed, draws, n) is Err,
    ensures
        fought(name, shown, catalog, data, base_dmg, entity_speed, player_speed, draws, more)
            == fought(name, shown, catalog, data, base_dmg, entity_speed, player_speed, draws, n),
    decreases more,
{
    if n < more {
        lemma_fought_fails(
            name,
            shown,
            catalog,
            data,
            base_dmg,
            entity_speed,
            player_speed,
            draws,
            n,
            (more - 1) as nat,
        );
    }
}

/// Fights the rounds that the strikes `draws` decide, until the fight is
/// over. Says whether a round was fought and whether the fight is over.
fn rounds_with(
    name: &str,
    shown: &Stats,
    world: &World,
    fighter: &mut Player,
    text: &mut Vec<u8>,
    base_dmg: i64,
    entity_speed: i64,
    player_speed: i64,
    draws: &Vec<StrikeDraw>,
) -> (r: Result<(bool, bool), Error>)
    requires
        old(text)@.len() == 0,
        entity_speed > 0 ==> player_speed > 0,
    ensures
        match fought(
            name@,
            shown@,
            world@.items,
            old(fighter)@.data,
            base_dmg,
            entity_speed,
            player_speed,
            draws_model(draws@),
            draws@.len(),
        ) {
            Ok(f) => r == Ok::<(bool, bool), Error>((f.rounds > 0, over(f, entity_speed)))
                && final(fighter)@ == (PlayerModel { data: f.data, ..old(fighter)@ }) && final(text)@ == f.text,
            Err(e) => r == Err::<(bool, bool), Error>(e),
        },
{
    let ghost start = fighter@;
    let ghost strikes = draws_model(draws@);
    let ghost catalog = world@.items;
    let mut rounds: usize = 0;
    let mut cumulative: i128 = 0;
    let mut dead = false;
    let mut i: usize = 0;
    assert(text@ =~= Seq::<u8>::empty());
    while i < draws.len()
        invariant
            i <= draws@.len(),
            rounds <= i,
            strikes == draws_model(draws@),
            catalog == world@.items,
            entity_speed > 0 ==> player_speed > 0,
            rounds > 0 ==> player_speed > 0 && cumulative - player_speed < entity_speed,
            rounds == 0 ==> cumulative == 0,
            start == old(fighter)@,
            fighter@ == (PlayerModel { data: fighter@.data, ..start }),
            fought(
                name@,
                shown@,
                catalog,
                start.data,
                base_dmg,
                entity_speed,
                player_speed,
                strikes,
                i as nat,
            ) == Ok::<Fight, Error>(
                Fight {
                    data: fighter@.data,
                    text: text@,
                    rounds: rounds as nat,
                    covered: cumulative as int,
                    dead,
                },
            ),
        decreases draws@.len() - i,
    {
        if !(dead || cumulative >= entity_speed as i128) {
            match fight_round(
                name,
                shown,
                world,
                fighter,
                text,
                base_dmg,
                draws[i].quote.as_str(),
                draws[i].weapon,
                draws[i].ability,
            ) {
                Ok(died) => {
                    assert(strikes[i as int] == draws@[i as int]@);
                    dead = died;
                    rounds = rounds + 1;
                    cumulative = cumulative + player_speed as i128;
                },
                Err(e) => {
                    proof {
                        assert(strikes[i as int] == draws@[i as int]@);
                        assert(fought(
                            name@,
                            shown@,
                            catalog,
                            start.data,
                            base_dmg,
                            entity_speed,
                            player_speed,
                            strikes,
                            (i + 1) as nat,
                        ) == Err::<Fight, Error>(e));
                        lemma_fought_fails(
                            name@,
                            shown@,
                            catalog,
                            start.data,
                            base_dmg,
                            entity_speed,
                            player_speed,
                            strikes,
                            (i + 1) as nat,
                            strikes.len(),
                        );
                    }
                    return Err(e);
                },
            }
        }
        i = i + 1;
    }
    Ok((rounds > 0, dead || cumulative >= entity_speed as i128))
}

/// The handler `attack`, as [`attack`] does it, when chance decides the
/// strikes `draws`: the mob on the player's tile fights round after round
/// until the player has caught up with its speed or has died.
pub fn attack_with(
    entities: &mut SpawnedEntities,
    player_id: u8,
    players: &mut Vec<Option<Player>>,
    world: &mut World,
    draws: &Vec<StrikeDraw>,
) -> (r: Result<PlayerOut, Error>)
    ensures
        settles(
            scene_of(*old(entities), *old(players), *old(world)),
            scene_of(*final(entities), *final(players), *final(world)),
            r,
            attack_outcome(
                scene_of(*old(entities), *old(players), *old(world)),
                player_id,
                draws_model(draws@),
            ),
        ),
{
    let read = match read_duel(entities, player_id, players, world) {
        Ok(read) => read,
        Err(e) => {
            return Err(e);
        },
    };
    let (name, shown) = match get_entity(entities, read.x, read.y) {
        Some(entity) => (entity.name(), entity.data()),
        None => {
            return Err(Error::NoSuchEntity);
        },
    };
    let id = player_id as usize;
    let mut fighter = match &players[id] {
        Some(p) => p.clone(),
        None => {
            return Err(Error::NoSuchPlayer);
        },
    };
    let mut text: Vec<u8> = Vec::new();
    let (any, done) = match rounds_with(
        name.as_str(),
        &shown,
        world,
        &mut fighter,
        &mut text,
        read.base_dmg,
        read.entity_speed,
        read.player_speed,
        draws,
    ) {
        Ok(state) => state,
        Err(e) => {
            return Err(e);
        },
    };
    if !done {
        return Err(Error::BadOdds);
    }
    players.set(id, Some(fighter));
    let mut out = PlayerOut::new();
    if any {
        out.append_bytes(text);
    }
    Ok(out)
}

/// The strikes that chance decided say what the attack did.
proof fn lemma_possible_attack(
    before: Scene,
    id: u8,
    after: Scene,
    r: Result<PlayerOut, Error>,
    draws: Seq<Strike>,
)
    requires
        duel(before, id) is Ok,
        settles(before, after, r, attack_outcome(before, id, draws)),
        ends_fight(duel(before, id)->Ok_0, before.world.items, draws),
        forall|i: int|
            0 <= i < draws.len() ==> fair_strike(
                duel(before, id)->Ok_0.entity.data(),
                before.world.items,
                draws[i],
            ),
    ensures
        possible_attack(before, id, after, r),
{
}

/// Fights rounds with the strikes that chance decides, until the fight
/// is over. Says whether a round was fought, and which strikes were
/// decided.
fn rounds_by_chance<T: Spawnable>(
    entity: &T,
    name: &str,
    shown: &Stats,
    world: &World,
    fighter: &mut Player,
    text: &mut Vec<u8>,
    base_dmg: i64,
    entity_speed: i64,
    player_speed: i64,
) -> (r: (Result<bool, Error>, Ghost<Seq<Strike>>))
    requires
        old(text)@.len() == 0,
        entity_speed > 0 ==> player_speed > 0,
        shown@ == entity.model().data(),
    ensures
        forall|i: int|
            0 <= i < r.1@.len() ==> fair_strike(shown@, world@.items, #[trigger] r.1@[i]),
        match fought(
            name@,
            shown@,
            world@.items,
            old(fighter)@.data,
            base_dmg,
            entity_speed,
            player_speed,
            r.1@,
            r.1@.len(),
        ) {
            Ok(f) => r.0 == Ok::<bool, Error>(f.rounds > 0) && over(f, entity_speed) && final(fighter)@ == (PlayerModel { data: f.data, ..old(fighter)@ }) && final(text)@ == f.text,
            Err(e) => r.0 == Err::<bool, Error>(e),
        },
{
    let ghost start = fighter@;
    let ghost catalog = world@.items;
    let none = Stats::new();
    let tools = match shown.get_box("tools") {
        Ok(t) => t,
        Err(_) => &none,
    };
    let mut rounds: u64 = 0;
    let mut cumulative: i128 = 0;
    let mut dead = false;
    let ghost mut strikes: Seq<Strike> = Seq::empty();
    assert(text@ =~= Seq::<u8>::empty());
    while !(dead || cumulative >= entity_speed as i128)
        invariant
            catalog == world@.items,
            shown@ == entity.model().data(),
            model_box(shown@, "tools"@) matches Ok(t) ==> t == tools@,
            entity_speed > 0 ==> player_speed > 0,
            rounds > 0 ==> player_speed > 0 && cumulative - player_speed < entity_speed,
            rounds == 0 ==> cumulative == 0,
            rounds <= cumulative,
            start == old(fighter)@,
            fighter@ == (PlayerModel { data: fighter@.data, ..start }),
            forall|i: int|
                0 <= i < strikes.len() ==> fair_strike(shown@, catalog, #[trigger] strikes[i]),
            fought(
                name@,
                shown@,
                catalog,
                start.data,
                base_dmg,
                entity_speed,
                player_speed,
                strikes,
                strikes.len(),
            ) == Ok::<Fight, Error>(
                Fight {
                    data: fighter@.data,
                    text: text@,
                    rounds: rounds as nat,
                    covered: cumulative as int,
                    dead,
                },
            ),
        decreases (if entity_speed > cumulative { entity_speed - cumulative } else { 0 }),
    {
        let drawn = get_random_quote(entity, "attack");
        let weapon = if tools.len() > 0 {
            random_index(tools.len())
        } else {
            0
        };
        let reach = count_abilities(world, tools, weapon);
        let ability = if reach > 0 {
            random_index(reach)
        } else {
            0
        };
        proof {
            let earlier = strikes;
            let strike = Strike {
                quote: string_result(drawn),
                weapon: weapon as int,
                ability: ability as int,
            };
            strikes = strikes.push(strike);
            assert(fair_strike(shown@, catalog, strike));
            lemma_fought_prefix(
                name@,
                shown@,
                catalog,
                start.data,
                base_dmg,
                entity_speed,
                player_speed,
                earlier,
                strikes,
                earlier.len(),
            );
        }
        let quote = match drawn {
            Ok(q) => q,
            Err(e) => {
                proof {
                    reveal(round);
                    assert(strikes.last().quote == Err::<Seq<char>, Error>(e));
                    assert(fought(
                        name@,
                        shown@,
                        catalog,
                        start.data,
                        base_dmg,
                        entity_speed,
                        player_speed,
                        strikes,
                        strikes.len(),
                    ) == Err::<Fight, Error>(e));
                }
                return (Err(e), Ghost(strikes));
            },
        };
        assert(strikes.last() == Strike {
            quote: Ok(quote@),
            weapon: weapon as int,
            ability: ability as int,
        });
        match fight_round(
            name,
            shown,
            world,
            fighter,
            text,
            base_dmg,
            quote.as_str(),
            weapon,
            ability,
        ) {
            Ok(died) => {
                dead = died;
                rounds = rounds + 1;
                cumulative = cumulative + player_speed as i128;
            },
            Err(e) => {
                proof {
                    assert(fought(
                        name@,
                        shown@,
                        catalog,
                        start.data,
                        base_dmg,
                        entity_speed,
                        player_speed,
                        strikes,
                        strikes.len(),
                    ) == Err::<Fight, Error>(e));
                }
                return (Err(e), Ghost(strikes));
            },
        }
    }
    (Ok(rounds > 0), Ghost(strikes))
}

/// The handler `attack` of a mob: the mob on the player's tile fights
/// round after round until the player has caught up with its speed or
/// has died. In each round the mob says one of its quotes `attack`,
/// takes its `dmg` off the player's health, and reaches for one of its
/// tools, of which it uses one ability.
pub fn attack(
    entities: &mut SpawnedEntities,
    player_id: u8,
    players: &mut Vec<Option<Player>>,
    world: &mut World,
) -> (r: Result<PlayerOut, Error>)
    ensures
        possible_attack(
            scene_of(*old(entities), *old(players), *old(world)),
            player_id,
            scene_of(*final(entities), *final(players), *final(world)),
            r,
        ),
{
    let ghost before = scene_of(*entities, *players, *world);
    let read = match read_duel(entities, player_id, players, world) {
        Ok(read) => read,
        Err(e) => {
            return Err(e);
        },
    };
    let entity = match get_entity(entities, read.x, read.y) {
        Some(entity) => entity,
        None => {
            return Err(Error::NoSuchEntity);
        },
    };
    let name = entity.name();
    let shown = entity.data();
    let id = player_id as usize;
    let mut fighter = match &players[id] {
        Some(p) => p.clone(),
        None => {
            return Err(Error::NoSuchPlayer);
        },
    };
    let mut text: Vec<u8> = Vec::new();
    let (fought_any, Ghost(strikes)) = rounds_by_chance(
        entity,
        name.as_str(),
        &shown,
        world,
        &mut fighter,
        &mut text,
        read.base_dmg,
        read.entity_speed,
        read.player_speed,
    );
    let any = match fought_any {
        Ok(any) => any,
        Err(e) => {
            proof {
                lemma_possible_attack(before, player_id, before, Err(e), strikes);
            }
            return Err(e);
        },
    };
    players.set(id, Some(fighter));
    let mut out = PlayerOut::new();
    if any {
        out.append_bytes(text);
    }
    proof {
        let after = scene_of(*entities, *players, *world);
        lemma_possible_attack(before, player_id, after, Ok(out), strikes);
    }
    Ok(out)
}

/// What the player reads who meets a mob.
pub open spec fn greeting_text(name: Seq<char>, quote: Seq<char>, img: Seq<char>) -> Seq<u8> {
    utf8("You have encountered "@) + utf8(name) + utf8("\n"@) + utf8(name) + utf8(": "@) + utf8(
        quote,
    ) + utf8("\n"@) + utf8(img)
}

/// The picture of a mob: the long string `img` of its data, none where
/// it has none.
pub open spec fn picture(shown: StatsModel) -> Result<Seq<char>, Error> {
    value_longstring(model_get_or(shown, "img"@, ValueModel::LongString(Seq::empty())))
}

/// What meeting the mob on the player's tile comes to when the mob says
/// `quote`: what the player reads, and whether the mob attacks at once. It
/// does so if its data hold `attack_first` and it is faster than the
/// player.
pub open spec fn greeting(s: Scene, id: u8, quote: Result<Seq<char>, Error>) -> Result<
    (Seq<u8>, bool),
    Error,
> {
    match player_at(s.players, id) {
        Err(e) => Err(e),
        Ok(p) => match entity_at(s.entities, p.x, p.y) {
            Err(e) => Err(e),
            Ok(entity) => match quote {
                Err(e) => Err(e),
                Ok(q) => match picture(entity.data()) {
                    Err(e) => Err(e),
                    Ok(img) => match stat_of(p.data, "speed"@) {
                        Err(e) => Err(e),
                        Ok(player_speed) => match model_int_or(entity.state, "speed"@, 0) {
                            Err(e) => Err(e),
                            Ok(entity_speed) => Ok(
                                (
                                    greeting_text(entity.name, q, img),
                                    model_has(entity.data(), "attack_first"@) && entity_speed
                                        > player_speed,
                                ),
                            ),
                        },
                    },
                },
            },
        },
    }
}

/// What the handler `interact` of a mob does when the mob says `quote`
/// and chance decides the strikes `draws`: the player reads the greeting,
/// and where the mob attacks at once, what the attack does follows.
pub open spec fn interact_outcome(
    s: Scene,
    id: u8,
    quote: Result<Seq<char>, Error>,
    draws: Seq<Strike>,
) -> Result<Outcome, Error> {
    match greeting(s, id, quote) {
        Err(e) => Err(e),
        Ok((text, attacks)) => if attacks {
            match attack_outcome(s, id, draws) {
                Err(e) => Err(e),
                Ok(o) => Ok(Outcome { scene: o.scene, out: joined(seq![text_packet(text)], o.out) }),
            }
        } else {
            Ok(Outcome { scene: s, out: seq![text_packet(text)] })
        },
    }
}

/// Whether the strikes `draws` see through the fight that follows the
/// greeting with the quote `quote`, if one follows.
pub open spec fn ends_meeting(
    s: Scene,
    id: u8,
    quote: Result<Seq<char>, Error>,
    draws: Seq<Strike>,
) -> bool {
    match (greeting(s, id, quote), duel(s, id)) {
        (Ok((_, attacks)), Ok(d)) => attacks ==> ends_fight(d, s.world.items, draws),
        _ => true,
    }
}

/// Whether meeting a mob did what it can do: what it does for one of the
/// mob's quotes `entrance` and, where the mob attacks at once, some run of
/// strikes that chance can decide and that sees the fight through.
pub open spec fn possible_interact(
    before: Scene,
    id: u8,
    after: Scene,
    r: Result<PlayerOut, Error>,
) -> bool {
    match player_at(before.players, id) {
        Err(e) => settles(before, after, r, Err(e)),
        Ok(p) => match entity_at(before.entities, p.x, p.y) {
            Err(e) => settles(before, after, r, Err(e)),
            Ok(entity) => exists|quote: Result<Seq<char>, Error>, draws: Seq<Strike>| #[trigger]
                settles(before, after, r, interact_outcome(before, id, quote, draws))
                    && possible_quote(entity.data(), "entrance"@, quote) && ends_meeting(
                    before,
                    id,
                    quote,
                    draws,
                ) && forall|i: int|
                    0 <= i < draws.len() ==> fair_strike(
                        entity.data(),
                        before.world.items,
                        #[trigger] draws[i],
                    ),
        },
    }
}

/// Reads the meeting with the mob on the player's tile.
fn greet(
    entities: &SpawnedEntities,
    player_id: u8,
    players: &Vec<Option<Player>>,
    world: &World,
    quote: &str,
) -> (r: Result<(Vec<u8>, bool), Error>)
    ensures
        match greeting(scene_of(*entities, *players, *world), player_id, Ok(quote@)) {
            Ok((text, attacks)) => r is Ok && r->Ok_0.0@ == text && r->Ok_0.1 == attacks,
            Err(e) => r is Err && r->Err_0 == e,
        },
{
    let (x, y) = match position_of(players, player_id) {
        Ok(tile) => tile,
        Err(e) => {
            return Err(e);
        },
    };
    let entity = match get_entity(entities, x, y) {
        Some(e) => e,
        None => {
            return Err(Error::NoSuchEntity);
        },
    };
    let name = entity.name();
    let shown = entity.data();
    let mut text: Vec<u8> = Vec::new();
    push_str(&mut text, "You have encountered ");
    push_str(&mut text, name.as_str());
    push_str(&mut text, "\n");
    push_str(&mut text, name.as_str());
    push_str(&mut text, ": ");
    push_str(&mut text, quote);
    push_str(&mut text, "\n");
    match shown.get("img") {
        Ok(v) => match v.as_longstring() {
            Ok(img) => {
                push_str(&mut text, img.as_str());
                assert(text@ =~= greeting_text(name@, quote@, img@));
            },
            Err(e) => {
                return Err(e);
            },
        },
        Err(_) => {
            push_str(&mut text, "");
            proof {
                reveal_strlit("");
                assert(""@ =~= Seq::<char>::empty());
            }
            assert(text@ =~= greeting_text(name@, quote@, Seq::<char>::empty()));
        },
    }
    let player_speed = match &players[player_id as usize] {
        Some(p) => match p.stat("speed") {
            Ok(v) => v,
            Err(e) => {
                return Err(e);
            },
        },
        None => {
            return Err(Error::NoSuchPlayer);
        },
    };
    let entity_speed = match entity.state().get_int_or("speed", 0) {
        Ok(v) => v,
        Err(e) => {
            return Err(e);
        },
    };
    Ok((text, shown.has_var("attack_first") && entity_speed > player_speed))
}

/// The handler `interact` of a mob, as [`interact_mob`] does it, when the
/// mob says `quote` and chance decides the strikes `draws`.
pub fn interact_mob_with(
    entities: &mut SpawnedEntities,
    player_id: u8,
    players: &mut Vec<Option<Player>>,
    world: &mut World,
    quote: &str,
    draws: &Vec<StrikeDraw>,
) -> (r: Result<PlayerOut, Error>)
    ensures
        settles(
            scene_of(*old(entities), *old(players), *old(world)),
            scene_of(*final(entities), *final(players), *final(world)),
            r,
            interact_outcome(
                scene_of(*old(entities), *old(players), *old(world)),
                player_id,
                Ok(quote@),
                draws_model(draws@),
            ),
        ),
{
    let (text, attacks) = match greet(entities, player_id, players, world, quote) {
        Ok(read) => read,
        Err(e) => {
            return Err(e);
        },
    };
    let mut out = PlayerOut::new();
    out.append_bytes(text);
    if attacks {
        match attack_with(entities, player_id, players, world, draws) {
            Ok(fight) => {
                out.append_player_out(fight);
            },
            Err(e) => {
                return Err(e);
            },
        }
    }
    Ok(out)
}

/// The quote and the strikes that chance decided say what the meeting did.
proof fn lemma_possible_interact(
    before: Scene,
    id: u8,
    after: Scene,
    r: Result<PlayerOut, Error>,
    quote: Result<Seq<char>, Error>,
    draws: Seq<Strike>,
)
    requires
        player_at(before.players, id) is Ok,
        entity_at(
            before.entities,
            player_at(before.players, id)->Ok_0.x,
            player_at(before.players, id)->Ok_0.y,
        ) is Ok,
        settles(before, after, r, interact_outcome(before, id, quote, draws)),
        ends_meeting(before, id, quote, draws),
        possible_quote(
            entity_at(
                before.entities,
                player_at(before.players, id)->Ok_0.x,
                player_at(before.players, id)->Ok_0.y,
            )->Ok_0.data(),
            "entrance"@,
            quote,
        ),
        forall|i: int|
            0 <= i < draws.len() ==> fair_strike(
                entity_at(
                    before.entities,
                    player_at(before.players, id)->Ok_0.x,
                    player_at(before.players, id)->Ok_0.y,
                )->Ok_0.data(),
                before.world.items,
                #[trigger] draws[i],
            ),
    ensures
        possible_interact(before, id, after, r),
{
}

/// The strikes of which an attack says that they were decided.
proof fn lemma_attack_draws(before: Scene, id: u8, after: Scene, r: Result<PlayerOut, Error>) -> (draws:
    Seq<Strike>)
    requires
        possible_attack(before, id, after, r),
        player_at(before.players, id) is Ok,
        entity_at(
            before.entities,
            player_at(before.players, id)->Ok_0.x,
            player_at(before.players, id)->Ok_0.y,
        ) is Ok,
    ensures
        settles(before, after, r, attack_outcome(before, id, draws)),
        duel(before, id) matches Ok(d) ==> ends_fight(d, before.world.items, draws),
        forall|i: int|
            0 <= i < draws.len() ==> fair_strike(
                entity_at(
                    before.entities,
                    player_at(before.players, id)->Ok_0.x,
                    player_at(before.players, id)->Ok_0.y,
                )->Ok_0.data(),
                before.world.items,
                #[trigger] draws[i],
            ),
{
    if duel(before, id) is Ok {
        let d = duel(before, id)->Ok_0;
        choose|draws: Seq<Strike>| #[trigger]
            settles(before, after, r, attack_outcome(before, id, draws)) && ends_fight(
                d,
                before.world.items,
                draws,
            ) && forall|i: int|
                0 <= i < draws.len() ==> fair_strike(
                    d.entity.data(),
                    before.world.items,
                    draws[i],
                )
    } else {
        Seq::empty()
    }
}

/// The handler `interact` of a mob: the mob on the player's tile says
/// one of its quotes `entrance` and shows its picture; if its data hold
/// `attack_first` and it is faster than the player, it attacks at once.
pub fn interact_mob(
    entities: &mut SpawnedEntities,
    player_id: u8,
    players: &mut Vec<Option<Player>>,
    world: &mut World,
) -> (r: Result<PlayerOut, Error>)
    ensures
        possible_interact(
            scene_of(*old(entities), *old(players), *old(world)),
            player_id,
            scene_of(*final(entities), *final(players), *final(world)),
            r,
        ),
{
    let ghost before = scene_of(*entities, *players, *world);
    let (x, y) = match position_of(players, player_id) {
        Ok(tile) => tile,
        Err(e) => {
            return Err(e);
        },
    };
    let drawn = match get_entity(entities, x, y) {
        Some(entity) => get_random_quote(entity, "entrance"),
        None => {
            return Err(Error::NoSuchEntity);
        },
    };
    let ghost quote = string_result(drawn);
    let said = match drawn {
        Ok(q) => q,
        Err(e) => {
            proof {
                lemma_possible_interact(before, player_id, before, Err(e), quote, Seq::empty());
            }
            return Err(e);
        },
    };
    let (text, attacks) = match greet(entities, player_id, players, world, said.as_str()) {
        Ok(read) => read,
        Err(e) => {
            proof {
                lemma_possible_interact(before, player_id, before, Err(e), quote, Seq::empty());
            }
            return Err(e);
        },
    };
    let mut out = PlayerOut::new();
    out.append_bytes(text);
    if attacks {
        let fight = attack(entities, player_id, players, world);
        let ghost after = scene_of(*entities, *players, *world);
        let ghost draws = lemma_attack_draws(before, player_id, after, fight);
        match fight {
            Ok(fight) => {
                out.append_player_out(fight);
                proof {
                    lemma_possible_interact(before, player_id, after, Ok(out), quote, draws);
                }
                Ok(out)
            },
            Err(e) => {
                proof {
                    lemma_possible_interact(before, player_id, after, Err(e), quote, draws);
                }
                Err(e)
            },
        }
    } else {
        proof {
            lemma_possible_interact(before, player_id, before, Ok(out), quote, Seq::empty());
        }
        Ok(out)
    }
}

} // verus!
