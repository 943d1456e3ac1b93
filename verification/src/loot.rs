//! Rolling for items: the drops of a drop table, and the pick of items
//! from the world's tiers.

use crate::dice::{random_fraction, random_in, random_index, MILLION};
use crate::error::Error;
use crate::stats::{
    list_model, model_box, model_get, model_int_or, model_list, model_set, value_flt, value_list,
    value_string, Stats, StatsModel, Value, ValueModel,
};
use crate::world::{names_model, tier_items, World};
use vstd::prelude::*;

verus! {

/// A drop table, read and checked.
pub struct DropPlan {
    /// The names of the items, one value each.
    pub names: Seq<ValueModel>,
    /// What is handed out of each item.
    pub per: Seq<ValueModel>,
    /// The odds of the items, summed up from the first to each.
    pub thresholds: Seq<i64>,
    /// The least and the greatest number of rolls.
    pub min: u64,
    pub max: u64,
}

/// The sum of the first `n` odds; each must be a fraction, and no sum may
/// leave 64 bits.
pub open spec fn odds_sum(probs: Seq<ValueModel>, n: nat) -> Result<i64, Error>
    decreases n,
{
    if n == 0 || n > probs.len() {
        Ok(0)
    } else {
        match odds_sum(probs, (n - 1) as nat) {
            Err(e) => Err(e),
            Ok(sum) => match value_flt(probs[n - 1]) {
                Err(e) => Err(e),
                Ok(p) => if i64::MIN <= sum + p <= i64::MAX {
                    Ok((sum + p) as i64)
                } else {
                    Err(Error::Overflow)
                },
            },
        }
    }
}

/// What is handed out of each item: the list `item_per`, or one unit of
/// each of the `n` items where the table has no such list.
pub open spec fn per_list(items: StatsModel, n: nat) -> Result<Seq<ValueModel>, Error> {
    match model_get(items, "item_per"@) {
        Some(v) => value_list(v),
        None => Ok(Seq::new(n, |i: int| ValueModel::Int(1))),
    }
}

/// The drop table that the store `items` describes: `items` lists the
/// names, `item_prob` their odds, `item_per` what is handed out of each,
/// `items_min` and `items_max` the bounds of the number of rolls (none
/// where they are missing). The three lists must be of one length, the
/// bounds must not be negative nor cross, and the odds must sum up.
pub open spec fn drop_plan(items: StatsModel) -> Result<DropPlan, Error> {
    match model_list(items, "items"@) {
        Err(e) => Err(e),
        Ok(names) => match model_list(items, "item_prob"@) {
            Err(e) => Err(e),
            Ok(probs) => match per_list(items, names.len()) {
                Err(e) => Err(e),
                Ok(per) => if !(names.len() == probs.len() && probs.len() == per.len()) {
                    Err(Error::BadTable)
                } else {
                    match model_int_or(items, "items_min"@, 0) {
                        Err(e) => Err(e),
                        Ok(min) => match model_int_or(items, "items_max"@, 0) {
                            Err(e) => Err(e),
                            Ok(max) => if min < 0 || max < min {
                                Err(Error::BadOdds)
                            } else {
                                match odds_sum(probs, probs.len()) {
                                    Err(e) => Err(e),
                                    Ok(_) => Ok(
                                        DropPlan {
                                            names,
                                            per,
                                            thresholds: Seq::new(
                                                probs.len(),
                                                |i: int| odds_sum(probs, (i + 1) as nat)->Ok_0,
                                            ),
                                            min: min as u64,
                                            max: max as u64,
                                        },
                                    ),
                                }
                            },
                        },
                    }
                },
            },
        }
    }
}

/// The index of the first threshold above `p`, or the number of
/// thresholds where none is.
pub open spec fn first_above(thresholds: Seq<i64>, p: i64) -> int
    decreases thresholds.len(),
{
    if thresholds.len() == 0 {
        0
    } else if p < thresholds[0] {
        0
    } else {
        1 + first_above(thresholds.drop_first(), p)
    }
}

/// The drops after one roll `p`: the first item whose threshold is above
/// the roll is set to what is handed out of it; a roll above every
/// threshold wins nothing.
pub open spec fn awarded(plan: DropPlan, drops: StatsModel, p: i64) -> Result<StatsModel, Error> {
    let i = first_above(plan.thresholds, p);
    if i < plan.thresholds.len() {
        match value_string(plan.names[i]) {
            Ok(name) => Ok(model_set(drops, name, plan.per[i])),
            Err(e) => Err(e),
        }
    } else {
        Ok(drops)
    }
}

/// The drops after the first `n` of the rolls `draws`, from none.
pub open spec fn awards(plan: DropPlan, draws: Seq<i64>, n: nat) -> Result<StatsModel, Error>
    decreases n,
{
    if n == 0 || n > draws.len() {
        Ok(Seq::empty())
    } else {
        match awards(plan, draws, (n - 1) as nat) {
            Err(e) => Err(e),
            Ok(drops) => awarded(plan, drops, draws[n - 1]),
        }
    }
}

/// What rolling on the table `items` with the rolls `draws` gives.
pub open spec fn drops_for(items: StatsModel, draws: Seq<i64>) -> Result<StatsModel, Error> {
    match drop_plan(items) {
        Err(e) => Err(e),
        Ok(plan) => awards(plan, draws, draws.len()),
    }
}

/// Whether `draws` is a run of rolls that the table `items` admits: as
/// many as its bounds allow, each a fraction in millionths.
pub open spec fn admitted_draws(items: StatsModel, draws: Seq<i64>) -> bool {
    &&& drop_plan(items) matches Ok(plan) ==> plan.min <= draws.len() <= plan.max
    &&& forall|i: int| 0 <= i < draws.len() ==> 0 <= #[trigger] draws[i] < MILLION
}

/// Whether `outcome` is what some admitted run of rolls on the table
/// `items` gives.
pub open spec fn possible_drops(items: StatsModel, outcome: Result<StatsModel, Error>) -> bool {
    exists|draws: Seq<i64>| #[trigger]
        admitted_draws(items, draws) && drops_for(items, draws) == outcome
}

/// What a result with a store stands for.
pub open spec fn stats_result(r: Result<Stats, Error>) -> Result<StatsModel, Error> {
    match r {
        Ok(s) => Ok(s@),
        Err(e) => Err(e),
    }
}

/// `first_above` is in range, the threshold it names is above the roll,
/// and none before it is.
pub proof fn lemma_first_above(thresholds: Seq<i64>, p: i64)
    ensures
        0 <= first_above(thresholds, p) <= thresholds.len(),
        forall|j: int| 0 <= j < first_above(thresholds, p) ==> p >= #[trigger] thresholds[j],
        first_above(thresholds, p) < thresholds.len() ==> p < thresholds[first_above(
            thresholds,
            p,
        )],
    decreases thresholds.len(),
{
    if thresholds.len() != 0 && p >= thresholds[0] {
        let rest = thresholds.drop_first();
        lemma_first_above(rest, p);
        assert forall|j: int| 0 <= j < first_above(thresholds, p) implies p
            >= #[trigger] thresholds[j] by {
            if j > 0 {
                assert(thresholds[j] == rest[j - 1]);
            }
        }
    }
}

/// The first threshold above the roll stands at `i` if one above it
/// stands there and none before.
pub proof fn lemma_first_above_is(thresholds: Seq<i64>, p: i64, i: int)
    requires
        0 <= i <= thresholds.len(),
        forall|j: int| 0 <= j < i ==> p >= #[trigger] thresholds[j],
        i < thresholds.len() ==> p < thresholds[i],
    ensures
        first_above(thresholds, p) == i,
{
    lemma_first_above(thresholds, p);
    let f = first_above(thresholds, p);
    if f < i {
        assert(p >= thresholds[f]);
    }
    if i < f {
        assert(p >= thresholds[i]);
    }
}

/// Once summing the first `n` odds has failed, summing more fails in the
/// same way.
pub proof fn lemma_odds_sum_fails(probs: Seq<ValueModel>, n: nat, more: nat)
    requires
        n <= more <= probs.len(),
        odds_sum(probs, n) is Err,
    ensures
        odds_sum(probs, more) == odds_sum(probs, n),
    decreases more,
{
    if n < more {
        lemma_odds_sum_fails(probs, n, (more - 1) as nat);
    }
}

/// Once the first `n` rolls have failed, more rolls fail in the same way.
pub proof fn lemma_awards_fails(plan: DropPlan, draws: Seq<i64>, n: nat, more: nat)
    requires
        n <= more <= draws.len(),
        awards(plan, draws, n) is Err,
    ensures
        awards(plan, draws, more) == awards(plan, draws, n),
    decreases more,
{
    if n < more {
        lemma_awards_fails(plan, draws, n, (more - 1) as nat);
    }
}

/// Rolls on the drop table `items` with the rolls `draws`, one roll for
/// each: a roll wins the first item whose summed odds are above it.
#[verifier::loop_isolation(false)]
pub fn award_drops(items: &Stats, draws: &Vec<i64>) -> (r: Result<Stats, Error>)
    ensures
        stats_result(r) == drops_for(items@, draws@),
{
    let names = match items.get_list("items") {
        Ok(l) => l,
        Err(e) => {
            return Err(e);
        },
    };
    let probs = match items.get_list("item_prob") {
        Ok(l) => l,
        Err(e) => {
            return Err(e);
        },
    };
    let per: Option<&Vec<Value>> = match items.get("item_per") {
        Ok(v) => match v.as_vec() {
            Ok(l) => Some(l),
            Err(e) => {
                return Err(e);
            },
        },
        Err(_) => None,
    };
    let per_len = match per {
        Some(l) => l.len(),
        None => names.len(),
    };
    if !(names.len() == probs.len() && probs.len() == per_len) {
        return Err(Error::BadTable);
    }
    let min = match items.get_int_or("items_min", 0) {
        Ok(v) => v,
        Err(e) => {
            return Err(e);
        },
    };
    let max = match items.get_int_or("items_max", 0) {
        Ok(v) => v,
        Err(e) => {
            return Err(e);
        },
    };
    if min < 0 || max < min {
        return Err(Error::BadOdds);
    }
    let ghost odds = list_model(probs@);
    let mut thresholds: Vec<i64> = Vec::new();
    let mut sum: i64 = 0;
    let mut i: usize = 0;
    while i < probs.len()
        invariant
            i <= probs@.len(),
            odds == list_model(probs@),
            thresholds@.len() == i,
            odds_sum(odds, i as nat) == Ok::<i64, Error>(sum),
            forall|j: int|
                0 <= j < i ==> odds_sum(odds, (j + 1) as nat) == Ok::<i64, Error>(
                    #[trigger] thresholds@[j],
                ),
        decreases probs@.len() - i,
    {
        let p = match probs[i].as_flt() {
            Ok(p) => p,
            Err(e) => {
                proof {
                    lemma_odds_sum_fails(odds, (i + 1) as nat, odds.len());
                }
                return Err(e);
            },
        };
        sum = match sum.checked_add(p) {
            Some(s) => s,
            None => {
                proof {
                    lemma_odds_sum_fails(odds, (i + 1) as nat, odds.len());
                }
                return Err(Error::Overflow);
            },
        };
        thresholds.push(sum);
        i = i + 1;
    }
    let ghost plan = drop_plan(items@)->Ok_0;
    assert(plan.thresholds =~= thresholds@);
    assert(plan.names == list_model(names@));
    assert(per matches Some(l) ==> plan.per == list_model(l@));
    assert(per is None ==> plan.per == Seq::new(names@.len(), |i: int| ValueModel::Int(1)));
    let mut drops = Stats::new();
    let mut k: usize = 0;
    while k < draws.len()
        invariant
            k <= draws@.len(),
            drop_plan(items@) == Ok::<DropPlan, Error>(plan),
            plan.thresholds == thresholds@,
            plan.names == list_model(names@),
            per matches Some(l) ==> plan.per == list_model(l@),
            per is None ==> plan.per == Seq::new(names@.len(), |i: int| ValueModel::Int(1)),
            plan.names.len() == plan.thresholds.len(),
            plan.per.len() == plan.thresholds.len(),
            awards(plan, draws@, k as nat) == Ok::<StatsModel, Error>(drops@),
        decreases draws@.len() - k,
    {
        let p = draws[k];
        let mut j: usize = 0;
        while j < thresholds.len() && p >= thresholds[j]
            invariant
                j <= thresholds@.len(),
                forall|t: int| 0 <= t < j ==> p >= #[trigger] thresholds@[t],
            decreases thresholds@.len() - j,
        {
            j = j + 1;
        }
        proof {
            lemma_first_above_is(thresholds@, p, j as int);
        }
        if j < thresholds.len() {
            let name = match names[j].as_string() {
                Ok(name) => name,
                Err(e) => {
                    proof {
                        lemma_awards_fails(plan, draws@, (k + 1) as nat, draws@.len());
                    }
                    return Err(e);
                },
            };
            let amount = match per {
                Some(l) => l[j].clone(),
                None => Value::Int(1),
            };
            drops.set(name.as_str(), amount);
        }
        k = k + 1;
    }
    Ok(drops)
}

/// The bounds of the number of rolls on the drop table `items`, or why
/// the table cannot be rolled on.
fn roll_bounds(items: &Stats) -> (r: Result<(u64, u64), Error>)
    ensures
        match r {
            Ok(bounds) => drop_plan(items@) is Ok && bounds.0 == drop_plan(items@)->Ok_0.min
                && bounds.1 == drop_plan(items@)->Ok_0.max && bounds.0 <= bounds.1 <= i64::MAX,
            Err(e) => drop_plan(items@) == Err::<DropPlan, Error>(e),
        },
{
    let none: Vec<i64> = Vec::new();
    match award_drops(items, &none) {
        Err(e) => Err(e),
        Ok(_) => {
            let min = match items.get_int_or("items_min", 0) {
                Ok(v) => v,
                Err(e) => {
                    return Err(e);
                },
            };
            let max = match items.get_int_or("items_max", 0) {
                Ok(v) => v,
                Err(e) => {
                    return Err(e);
                },
            };
            Ok((min as u64, max as u64))
        },
    }
}

/// Rolls on the drop table `items`: a number of rolls within the table's
/// bounds is drawn, then each roll, and the drops are what those rolls win.
pub fn get_items(items: &Stats) -> (r: Result<Stats, Error>)
    ensures
        possible_drops(items@, stats_result(r)),
{
    let bounds = match roll_bounds(items) {
        Ok(b) => b,
        Err(e) => {
            assert(admitted_draws(items@, Seq::<i64>::empty()));
            return Err(e);
        },
    };
    let runs = random_in(bounds.0, bounds.1 + 1);
    let mut draws: Vec<i64> = Vec::new();
    let mut n: u64 = 0;
    while n < runs
        invariant
            n <= runs,
            draws@.len() == n,
            forall|i: int| 0 <= i < draws@.len() ==> 0 <= #[trigger] draws@[i] < MILLION,
        decreases runs - n,
    {
        draws.push(random_fraction());
        n = n + 1;
    }
    assert(admitted_draws(items@, draws@));
    award_drops(items, &draws)
}

/// The names of the items of the first `n` of the tiers `levels`, tier
/// after tier; a tier that the world does not have adds nothing.
pub open spec fn pool_of(tiers: Seq<(i64, Seq<Seq<char>>)>, levels: Seq<i64>, n: nat) -> Seq<
    Seq<char>,
>
    decreases n,
{
    if n == 0 || n > levels.len() {
        Seq::empty()
    } else {
        match tier_items(tiers, levels[n - 1]) {
            Some(names) => pool_of(tiers, levels, (n - 1) as nat) + names,
            None => pool_of(tiers, levels, (n - 1) as nat),
        }
    }
}

/// The odds with which the item `item` of the catalog spawns: the
/// fraction `chance` of its store `spawn`.
pub open spec fn spawn_chance(catalog: StatsModel, item: Seq<char>) -> Result<i64, Error> {
    match model_box(catalog, item) {
        Err(e) => Err(e),
        Ok(definition) => match model_box(definition, "spawn"@) {
            Err(e) => Err(e),
            Ok(spawn) => match model_get(spawn, "chance"@) {
                Some(v) => value_flt(v),
                None => Err(Error::MissingKey),
            },
        },
    }
}

/// What offering the item at `pick` of the pool does to the items `got`
/// when the roll for it is `roll`: the item is taken, one more unit of it,
/// only if the roll is below its spawn chance.
pub open spec fn offered(
    catalog: StatsModel,
    pool: Seq<Seq<char>>,
    got: StatsModel,
    pick: int,
    roll: i64,
) -> Result<(StatsModel, bool), Error> {
    if !(0 <= pick < pool.len()) {
        Err(Error::BadOdds)
    } else {
        match spawn_chance(catalog, pool[pick]) {
            Err(e) => Err(e),
            Ok(chance) => if roll < chance {
                match model_int_or(got, pool[pick], 0) {
                    Err(e) => Err(e),
                    Ok(have) => if have < i64::MAX {
                        Ok((model_set(got, pool[pick], ValueModel::Int((have + 1) as i64)), true))
                    } else {
                        Err(Error::Overflow)
                    },
                }
            } else {
                Ok((got, false))
            },
        }
    }
}

/// The items and their number after the first `n` of the offers `draws`,
/// each a pick from the pool and a roll, from none.
pub open spec fn offers(
    catalog: StatsModel,
    pool: Seq<Seq<char>>,
    draws: Seq<(int, i64)>,
    n: nat,
) -> Result<(StatsModel, nat), Error>
    decreases n,
{
    if n == 0 || n > draws.len() {
        Ok((Seq::empty(), 0))
    } else {
        match offers(catalog, pool, draws, (n - 1) as nat) {
            Err(e) => Err(e),
            Ok((got, count)) => match offered(catalog, pool, got, draws[n - 1].0, draws[n - 1].1) {
                Err(e) => Err(e),
                Ok((more, taken)) => Ok(
                    (
                        more,
                        if taken {
                            count + 1
                        } else {
                            count
                        },
                    ),
                ),
            },
        }
    }
}

/// Whether `draws` is a run of offers that chance can decide: each picks
/// an item of the pool and rolls a fraction in millionths.
pub open spec fn fair_offers(pool: Seq<Seq<char>>, draws: Seq<(int, i64)>) -> bool {
    forall|i: int|
        0 <= i < draws.len() ==> 0 <= (#[trigger] draws[i]).0 < pool.len() && 0 <= draws[i].1
            < MILLION
}

/// Whether a search for `num_items` items can be given up: there is a run
/// of 18446744073709551615 offers, none of which fails, of which fewer
/// than `num_items` are taken.
pub open spec fn search_in_vain(catalog: StatsModel, pool: Seq<Seq<char>>, num_items: nat) -> bool {
    exists|draws: Seq<(int, i64)>| #[trigger]
        fair_offers(pool, draws) && draws.len() == u64::MAX && (match offers(
            catalog,
            pool,
            draws,
            draws.len(),
        ) {
            Ok((_, taken)) => taken < num_items,
            Err(_) => false,
        })
}

/// Whether `outcome` is what picking `num_items` items from the pool can
/// give. On success it is the items after some run of offers of which
/// exactly that many were taken. It fails as an offer of some run fails;
/// and it fails with `BadOdds` where items are asked of an empty pool, or
/// where the search can be given up.
pub open spec fn possible_pick(
    catalog: StatsModel,
    pool: Seq<Seq<char>>,
    num_items: nat,
    outcome: Result<StatsModel, Error>,
) -> bool {
    match outcome {
        Ok(items) => exists|draws: Seq<(int, i64)>| #[trigger]
            fair_offers(pool, draws) && offers(catalog, pool, draws, draws.len()) == Ok::<
                (StatsModel, nat),
                Error,
            >((items, num_items)),
        Err(e) => {
            ||| e == Error::BadOdds && num_items > 0 && (pool.len() == 0 || search_in_vain(
                catalog,
                pool,
                num_items,
            ))
            ||| exists|draws: Seq<(int, i64)>| #[trigger]
                fair_offers(pool, draws) && offers(catalog, pool, draws, draws.len()) == Err::<
                    (StatsModel, nat),
                    Error,
                >(e)
        },
    }
}

/// A run of offers that was made says what the pick gave.
proof fn lemma_possible_pick(
    catalog: StatsModel,
    pool: Seq<Seq<char>>,
    num_items: nat,
    draws: Seq<(int, i64)>,
)
    requires
        fair_offers(pool, draws),
        match offers(catalog, pool, draws, draws.len()) {
            Ok((_, taken)) => taken == num_items,
            Err(_) => true,
        },
    ensures
        possible_pick(
            catalog,
            pool,
            num_items,
            match offers(catalog, pool, draws, draws.len()) {
                Ok((items, _)) => Ok(items),
                Err(e) => Err(e),
            },
        ),
{
}

/// A run of offers that was made in vain says that the search can be
/// given up.
proof fn lemma_search_in_vain(
    catalog: StatsModel,
    pool: Seq<Seq<char>>,
    num_items: nat,
    draws: Seq<(int, i64)>,
)
    requires
        fair_offers(pool, draws),
        draws.len() == u64::MAX,
        offers(catalog, pool, draws, draws.len()) matches Ok((_, taken)) && taken < num_items,
    ensures
        search_in_vain(catalog, pool, num_items),
{
}

/// Offers the item at `pick` of the pool with the roll `roll`: the item
/// is put to the items `got`, one more unit of it, only if the roll is
/// below its spawn chance. Says whether it was taken; where the offer
/// fails `got` is left as it was.
pub fn offer_item(world: &World, pool: &Vec<String>, got: &mut Stats, pick: usize, roll: i64) -> (r:
    Result<bool, Error>)
    ensures
        match offered(world@.items, names_model(pool@), old(got)@, pick as int, roll) {
            Ok((more, taken)) => r == Ok::<bool, Error>(taken) && final(got)@ == more,
            Err(e) => r == Err::<bool, Error>(e) && final(got)@ == old(got)@,
        },
{
    if pick >= pool.len() {
        return Err(Error::BadOdds);
    }
    let item = pool[pick].as_str();
    let definition = match world.items().get_box(item) {
        Ok(d) => d,
        Err(e) => {
            return Err(e);
        },
    };
    let spawn = match definition.get_box("spawn") {
        Ok(s) => s,
        Err(e) => {
            return Err(e);
        },
    };
    let chance = match spawn.get("chance") {
        Ok(v) => match v.as_flt() {
            Ok(c) => c,
            Err(e) => {
                return Err(e);
            },
        },
        Err(e) => {
            return Err(e);
        },
    };
    if roll < chance {
        let have = match got.get_int_or(item, 0) {
            Ok(h) => h,
            Err(e) => {
                return Err(e);
            },
        };
        if have < i64::MAX {
            got.set(item, Value::Int(have + 1));
            Ok(true)
        } else {
            Err(Error::Overflow)
        }
    } else {
        Ok(false)
    }
}

/// The names of the items of the tiers `tiers`, tier after tier.
pub fn item_pool(world: &World, tiers: &Vec<i64>) -> (pool: Vec<String>)
    ensures
        names_model(pool@) == pool_of(world@.tiers, tiers@, tiers@.len() as nat),
{
    let mut pool: Vec<String> = Vec::new();
    let mut i: usize = 0;
    assert(names_model(pool@) =~= pool_of(world@.tiers, tiers@, 0));
    while i < tiers.len()
        invariant
            i <= tiers@.len(),
            names_model(pool@) == pool_of(world@.tiers, tiers@, i as nat),
        decreases tiers@.len() - i,
    {
        match world.items_tiered(tiers[i]) {
            Some(names) => {
                let ghost before = pool@;
                let mut j: usize = 0;
                while j < names.len()
                    invariant
                        j <= names@.len(),
                        names_model(pool@) == names_model(before) + names_model(names@).subrange(
                            0,
                            j as int,
                        ),
                    decreases names@.len() - j,
                {
                    let ghost grown = pool@;
                    pool.push(names[j].clone());
                    j = j + 1;
                    assert(names_model(pool@) =~= names_model(grown).push(names@[j - 1]@));
                    assert(names_model(pool@) =~= names_model(before) + names_model(
                        names@,
                    ).subrange(0, j as int));
                }
                assert(names_model(names@).subrange(0, names@.len() as int) =~= names_model(
                    names@,
                ));
            },
            None => {},
        }
        i = i + 1;
    }
    pool
}

/// Picks `num_items` items from the tiers `tiers` of the world: again and
/// again an item of the pool is drawn and offered with a roll of its own,
/// until as many were taken. The search is given up after
/// 18446744073709551615 offers.
#[verifier::loop_isolation(false)]
pub fn get_random_items(num_items: usize, world: &World, tiers: Vec<i64>) -> (r: Result<
    Stats,
    Error,
>)
    ensures
        possible_pick(
            world@.items,
            pool_of(world@.tiers, tiers@, tiers@.len() as nat),
            num_items as nat,
            stats_result(r),
        ),
        num_items == 0 ==> r is Ok,
{
    let pool = item_pool(world, &tiers);
    let ghost names = names_model(pool@);
    let ghost catalog = world@.items;
    let mut items = Stats::new();
    let mut collected: usize = 0;
    let mut tries: u64 = 0;
    let ghost mut draws: Seq<(int, i64)> = Seq::empty();
    while collected < num_items
        invariant
            collected <= num_items,
            names == names_model(pool@),
            catalog == world@.items,
            draws.len() == tries,
            fair_offers(names, draws),
            offers(catalog, names, draws, draws.len()) == Ok::<(StatsModel, nat), Error>(
                (items@, collected as nat),
            ),
        decreases u64::MAX - tries,
    {
        if pool.len() == 0 {
            return Err(Error::BadOdds);
        }
        if tries == u64::MAX {
            proof {
                lemma_search_in_vain(catalog, names, num_items as nat, draws);
            }
            return Err(Error::BadOdds);
        }
        tries = tries + 1;
        let pick = random_index(pool.len());
        let roll = random_fraction();
        proof {
            let before = draws;
            draws = draws.push((pick as int, roll));
            assert(draws.drop_last() =~= before);
            lemma_offers_prefix(catalog, names, before, draws, before.len());
        }
        match offer_item(world, &pool, &mut items, pick, roll) {
            Ok(taken) => {
                if taken {
                    collected = collected + 1;
                }
            },
            Err(e) => {
                assert(offers(catalog, names, draws, draws.len()) == Err::<
                    (StatsModel, nat),
                    Error,
                >(e));
                proof {
                    lemma_possible_pick(catalog, names, num_items as nat, draws);
                }
                return Err(e);
            },
        }
    }
    proof {
        lemma_possible_pick(catalog, names, num_items as nat, draws);
    }
    Ok(items)
}

/// The first offers of a run give what they give alone.
pub proof fn lemma_offers_prefix(
    catalog: StatsModel,
    pool: Seq<Seq<char>>,
    short: Seq<(int, i64)>,
    long: Seq<(int, i64)>,
    n: nat,
)
    requires
        n <= short.len() <= long.len(),
        forall|i: int| 0 <= i < short.len() ==> short[i] == long[i],
    ensures
        offers(catalog, pool, long, n) == offers(catalog, pool, short, n),
    decreases n,
{
    if n > 0 {
        lemma_offers_prefix(catalog, pool, short, long, (n - 1) as nat);
    }
}

} // verus!
