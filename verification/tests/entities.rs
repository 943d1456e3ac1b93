use mirae_server::action::{known_keyword, Action};
use mirae_server::dispatcher::get_entity_action;
use mirae_server::entities::{
    create_chest, create_mob, create_trading_mob, get_entity, get_entity_mut, has_entity,
    remove_entity, spawn, Entity, LootChest, Mob, SpawnedEntities, Spawnable, TradingMob,
};
use mirae_server::error::Error;
use mirae_server::loot::{award_drops, get_items, get_random_items, item_pool, offer_item};
use mirae_server::stats::{Stats, Value};
use mirae_server::world::{EntityKind, Tier, World};

fn store(pairs: Vec<(&str, Value)>) -> Stats {
    let mut s = Stats::new();
    for (name, value) in pairs {
        s.set(name, value);
    }
    s
}

fn boxed(pairs: Vec<(&str, Value)>) -> Value {
    Value::Box(store(pairs))
}

fn text(s: &str) -> Value {
    Value::String(s.to_string())
}

fn item(xp: i64, chance: i64) -> Value {
    boxed(vec![("xp", Value::Int(xp)), ("spawn", boxed(vec![("chance", Value::Float(chance))]))])
}

fn sure_table(name: &str, per: i64, runs: i64) -> Value {
    boxed(vec![
        ("items", Value::List(vec![text(name)])),
        ("item_prob", Value::List(vec![Value::Float(1_000_000)])),
        ("item_per", Value::List(vec![Value::Int(per)])),
        ("items_min", Value::Int(runs)),
        ("items_max", Value::Int(runs)),
    ])
}

fn mob_definition() -> Stats {
    store(vec![
        ("entity_type", text("mob")),
        ("display", text("r")),
        ("stats", boxed(vec![("health", Value::Int(20)), ("speed", Value::Int(3))])),
        ("tools", sure_table("sword", 1, 1)),
    ])
}

fn trader_definition() -> Stats {
    store(vec![
        ("entity_type", text("trading_mob")),
        ("trade_min", Value::Int(2)),
        ("trade_max", Value::Int(2)),
        ("stats", boxed(vec![("health", Value::Int(50))])),
        ("tools", sure_table("sword", 1, 0)),
    ])
}

fn chest_definition() -> Stats {
    store(vec![
        ("entity_type", text("chest")),
        ("items_min", Value::Int(3)),
        ("items_max", Value::Int(3)),
        ("tiers", Value::List(vec![Value::Int(0), Value::Int(7)])),
    ])
}

fn world() -> World {
    World::new(
        vec![store(vec![("display", Value::Int(7))])],
        vec![
            EntityKind { name: "rat".to_string(), properties: mob_definition() },
            EntityKind { name: "crate".to_string(), properties: chest_definition() },
        ],
        store(vec![("apple", item(3, 1_000_000)), ("sword", item(10, 1_000_000)), ("dust", item(0, 0))]),
        vec![
            Tier { level: 0, items: vec!["apple".to_string()] },
            Tier { level: 1, items: vec!["sword".to_string(), "dust".to_string()] },
            Tier { level: 0, items: vec!["shadowed".to_string()] },
        ],
        Stats::new(),
        5,
        6,
    )
}

fn total(items: &Stats) -> i64 {
    let mut sum = 0;
    for i in 0..items.len() {
        sum += items.value_at(i).as_int().unwrap();
    }
    sum
}

#[test]
fn world_keeps_its_catalogs() {
    let w = world();
    assert_eq!(w.max_block_id(), 1);
    assert_eq!(w.max_entity_id(), 2);
    assert_eq!(w.get_block_by_id(0).get_int("display"), Ok(7));
    assert_eq!(w.get_entity_properties_by_id(1).get_string("entity_type").unwrap(), "chest");
    assert_eq!(w.items().get_box("apple").unwrap().get_int("xp"), Ok(3));
    assert_eq!(w.spawn_point(), (5, 6));
    assert_eq!(w.player_defaults().len(), 0);
}

#[test]
fn world_finds_the_first_tier_of_a_level() {
    let w = world();
    assert_eq!(w.items_tiered(0).unwrap(), &vec!["apple".to_string()]);
    assert_eq!(w.items_tiered(1).unwrap().len(), 2);
    assert!(w.items_tiered(2).is_none());
    assert!(w.items_tiered(-1).is_none());
}

#[test]
fn world_places_and_clears_entities() {
    let mut w = world();
    assert!(!w.has_entity(1, 2));
    w.place_entity(1, 2, 0);
    w.place_entity(2, 1, 1);
    w.place_entity(9, 9, 5);
    assert!(w.has_entity(1, 2));
    assert!(!w.has_entity(9, 9));
    assert_eq!(w.get_entity_name(1, 2).unwrap(), "rat");
    assert_eq!(w.get_entity_name(2, 1).unwrap(), "crate");
    assert!(w.get_entity_name(9, 9).is_none());
    assert!(w.get_entity_properties(1, 2).unwrap().has_var("tools"));
    assert!(w.get_entity_properties(3, 3).is_none());
    w.remove_entity(1, 2);
    assert!(!w.has_entity(1, 2));
    assert!(w.has_entity(2, 1));
}

#[test]
fn award_drops_gives_the_first_item_above_the_roll() {
    let table = store(vec![
        ("items", Value::List(vec![text("a"), text("b"), text("c")])),
        (
            "item_prob",
            Value::List(vec![Value::Float(100_000), Value::Float(200_000), Value::Float(300_000)]),
        ),
        ("item_per", Value::List(vec![Value::Int(1), Value::Int(5), text("many")])),
    ]);
    let drops = award_drops(&table, &vec![0, 99_999]).unwrap();
    assert_eq!(drops.get_var_names(), vec!["a"]);
    assert_eq!(drops.get_int("a"), Ok(1));
    let drops = award_drops(&table, &vec![100_000, 299_999, 300_000]).unwrap();
    assert_eq!(drops.get_var_names(), vec!["b", "c"]);
    assert_eq!(drops.get_int("b"), Ok(5));
    assert_eq!(drops.get_string("c").unwrap(), "many");
    assert_eq!(award_drops(&table, &vec![600_000, 999_999]).unwrap().len(), 0);
    assert_eq!(award_drops(&table, &Vec::new()).unwrap().len(), 0);
}

#[test]
fn award_drops_hands_out_one_unit_by_default() {
    let table = store(vec![
        ("items", Value::List(vec![text("a")])),
        ("item_prob", Value::List(vec![Value::Float(1_000_000)])),
    ]);
    assert_eq!(award_drops(&table, &vec![5, 6]).unwrap().get_int("a"), Ok(1));
}

#[test]
fn award_drops_checks_the_table() {
    let names = Value::List(vec![text("a"), text("b")]);
    let probs = Value::List(vec![Value::Float(1), Value::Float(2)]);
    let rolls = vec![0];
    let r = |pairs| award_drops(&store(pairs), &rolls).err();
    assert_eq!(r(vec![("item_prob", probs.clone())]), Some(Error::MissingKey));
    assert_eq!(r(vec![("items", names.clone())]), Some(Error::MissingKey));
    assert_eq!(
        r(vec![("items", text("a")), ("item_prob", probs.clone())]),
        Some(Error::TypeMismatch)
    );
    assert_eq!(
        r(vec![("items", names.clone()), ("item_prob", Value::List(vec![Value::Float(1)]))]),
        Some(Error::BadTable)
    );
    assert_eq!(
        r(vec![
            ("items", names.clone()),
            ("item_prob", probs.clone()),
            ("item_per", Value::List(vec![Value::Int(1)])),
        ]),
        Some(Error::BadTable)
    );
    assert_eq!(
        r(vec![
            ("items", names.clone()),
            ("item_prob", probs.clone()),
            ("items_min", Value::Int(3)),
            ("items_max", Value::Int(2)),
        ]),
        Some(Error::BadOdds)
    );
    assert_eq!(
        r(vec![
            ("items", names.clone()),
            ("item_prob", probs.clone()),
            ("items_min", Value::Int(-1)),
            ("items_max", Value::Int(2)),
        ]),
        Some(Error::BadOdds)
    );
    assert_eq!(
        r(vec![
            ("items", names.clone()),
            ("item_prob", Value::List(vec![Value::Float(1), Value::Int(2)])),
        ]),
        Some(Error::TypeMismatch)
    );
    assert_eq!(
        r(vec![
            ("items", names.clone()),
            ("item_prob", Value::List(vec![Value::Float(i64::MAX), Value::Float(1)])),
        ]),
        Some(Error::Overflow)
    );
    assert_eq!(
        r(vec![
            ("items", Value::List(vec![Value::Int(1), text("b")])),
            ("item_prob", probs.clone()),
        ]),
        Some(Error::TypeMismatch)
    );
}

#[test]
fn get_items_rolls_as_often_as_the_bounds_say() {
    let sure = sure_table("sword", 4, 3);
    let drops = get_items(sure.as_box().unwrap()).unwrap();
    assert_eq!(drops.get_var_names(), vec!["sword"]);
    assert_eq!(drops.get_int("sword"), Ok(4));
    let never = store(vec![
        ("items", Value::List(vec![text("a")])),
        ("item_prob", Value::List(vec![Value::Float(0)])),
        ("items_min", Value::Int(5)),
        ("items_max", Value::Int(9)),
    ]);
    assert_eq!(get_items(&never).unwrap().len(), 0);
    let none = sure_table("sword", 4, 0);
    assert_eq!(get_items(none.as_box().unwrap()).unwrap().len(), 0);
    assert_eq!(get_items(&Stats::new()).err(), Some(Error::MissingKey));
}

#[test]
fn item_pool_joins_the_tiers_in_order() {
    let w = world();
    assert_eq!(item_pool(&w, &vec![1, 5, 0, 1]), vec!["sword", "dust", "apple", "sword", "dust"]);
    assert!(item_pool(&w, &vec![]).is_empty());
    assert!(item_pool(&w, &vec![9]).is_empty());
}

#[test]
fn offer_item_takes_an_item_whose_chance_is_above_the_roll() {
    let w = world();
    let pool = item_pool(&w, &vec![0, 1]);
    let mut got = Stats::new();
    assert_eq!(offer_item(&w, &pool, &mut got, 0, 999_999), Ok(true));
    assert_eq!(offer_item(&w, &pool, &mut got, 0, 0), Ok(true));
    assert_eq!(offer_item(&w, &pool, &mut got, 2, 0), Ok(false));
    assert_eq!(offer_item(&w, &pool, &mut got, 1, 1_000_000), Ok(false));
    assert_eq!(offer_item(&w, &pool, &mut got, 3, 0), Err(Error::BadOdds));
    assert_eq!(got.get_var_names(), vec!["apple"]);
    assert_eq!(got.get_int("apple"), Ok(2));
    let unknown = vec!["ghost".to_string()];
    assert_eq!(offer_item(&w, &unknown, &mut got, 0, 0), Err(Error::MissingKey));
}

#[test]
fn get_random_items_picks_as_many_as_asked() {
    let w = world();
    for _ in 0..20 {
        let items = get_random_items(7, &w, vec![0, 1]).unwrap();
        assert_eq!(total(&items), 7);
        for name in items.get_var_names() {
            assert!(name == "apple" || name == "sword");
        }
    }
    assert_eq!(get_random_items(0, &w, vec![]).unwrap().len(), 0);
    assert_eq!(get_random_items(1, &w, vec![]).err(), Some(Error::BadOdds));
    assert_eq!(get_random_items(1, &w, vec![3]).err(), Some(Error::BadOdds));
}

#[test]
fn mob_shows_its_definition_and_tools() {
    let tools = store(vec![("club", Value::Int(1))]);
    let mut mob = Mob::with_tools(mob_definition(), 3, 4, "rat".to_string(), tools).unwrap();
    assert_eq!((mob.x(), mob.y()), (3, 4));
    assert_eq!(mob.name(), "rat");
    assert_eq!(mob.entity_type(), "mob");
    let data = mob.data();
    assert_eq!(data.get_box("tools").unwrap().get_int("club"), Ok(1));
    assert_eq!(data.get_string("display").unwrap(), "r");
    assert_eq!(mob.mut_data().get_int("health"), Ok(20));
    mob.mut_data().set("health", Value::Int(1));
    assert_eq!(mob.mut_data().get_int("health"), Ok(1));
    assert_eq!(mob.data().get_box("stats").unwrap().get_int("health"), Ok(20));
    assert_eq!(
        Mob::with_tools(Stats::new(), 0, 0, "x".to_string(), Stats::new()).err(),
        Some(Error::MissingKey)
    );
}

#[test]
fn mob_new_rolls_its_tools() {
    let mob = Mob::new(mob_definition(), 1, 1, "rat".to_string()).unwrap();
    assert_eq!(mob.data().get_box("tools").unwrap().get_int("sword"), Ok(1));
    let mut bare = mob_definition();
    bare.remove("tools");
    let mob = Mob::new(bare, 1, 1, "rat".to_string()).unwrap();
    assert_eq!(mob.data().get_box("tools").unwrap().len(), 0);
    let mut broken = mob_definition();
    broken.set("tools", Value::Int(1));
    assert_eq!(Mob::new(broken, 1, 1, "rat".to_string()).err(), Some(Error::TypeMismatch));
    assert_eq!(Mob::new(Stats::new(), 1, 1, "rat".to_string()).err(), Some(Error::MissingKey));
}

#[test]
fn trader_shows_goods_tools_and_definition() {
    let goods = store(vec![("apple", Value::Int(2))]);
    let tools = store(vec![("club", Value::Int(1))]);
    let t = TradingMob::with_goods(trader_definition(), 1, 2, "ann".to_string(), goods, tools)
        .unwrap();
    assert_eq!(t.entity_type(), "trading_mob");
    assert_eq!(t.name(), "ann");
    let data = t.data();
    assert_eq!(data.get_box("trade_items").unwrap().get_int("apple"), Ok(2));
    assert_eq!(data.get_box("tools").unwrap().get_int("club"), Ok(1));
    assert_eq!(data.get_box("base_stats").unwrap().get_int("trade_min"), Ok(2));
    assert!(!data.get_box("base_stats").unwrap().has_var("trade_items"));
}

#[test]
fn trader_new_picks_its_goods() {
    let w = world();
    let t = TradingMob::new(trader_definition(), 1, 2, "ann".to_string(), &w).unwrap();
    let data = t.data();
    assert_eq!(total(data.get_box("trade_items").unwrap()), 2);
    assert_eq!(data.get_box("tools").unwrap().len(), 0);
    let mut crossed = trader_definition();
    crossed.set("trade_max", Value::Int(1));
    assert_eq!(
        TradingMob::new(crossed, 1, 2, "ann".to_string(), &w).err(),
        Some(Error::BadOdds)
    );
    let mut no_tools = trader_definition();
    no_tools.remove("tools");
    assert_eq!(
        TradingMob::new(no_tools, 1, 2, "ann".to_string(), &w).err(),
        Some(Error::MissingKey)
    );
    let mut no_min = trader_definition();
    no_min.remove("trade_min");
    assert_eq!(
        TradingMob::new(no_min, 1, 2, "ann".to_string(), &w).err(),
        Some(Error::MissingKey)
    );
}

#[test]
fn chest_shows_what_it_holds() {
    let mut chest = LootChest::with_items(1, 2, "box".to_string(), store(vec![("a", Value::Int(1))]));
    assert_eq!(chest.entity_type(), "chest");
    assert_eq!((chest.x(), chest.y()), (1, 2));
    chest.mut_data().set("b", Value::Int(2));
    assert_eq!(chest.data().get_var_names(), vec!["a", "b"]);
}

#[test]
fn chest_new_is_filled_from_its_tiers() {
    let w = world();
    let chest = LootChest::new(chest_definition(), 1, 2, "box".to_string(), &w).unwrap();
    let data = chest.data();
    assert_eq!(data.get_var_names(), vec!["apple"]);
    assert_eq!(data.get_int("apple"), Ok(3));
    let empty = LootChest::new(Stats::new(), 1, 2, "box".to_string(), &w).unwrap();
    assert_eq!(empty.data().len(), 0);
    let mut bad = chest_definition();
    bad.set("tiers", Value::List(vec![text("zero")]));
    assert_eq!(
        LootChest::new(bad, 1, 2, "box".to_string(), &w).err(),
        Some(Error::TypeMismatch)
    );
}

#[test]
fn spawn_builds_the_entity_of_the_definition() {
    let w = world();
    let mut se = SpawnedEntities::new();
    assert!(!has_entity(&se, 1, 2));
    assert_eq!(spawn(mob_definition(), 1, 2, "rat".to_string(), &mut se, &w), Ok(()));
    assert_eq!(spawn(chest_definition(), 2, 1, "crate".to_string(), &mut se, &w), Ok(()));
    assert_eq!(spawn(trader_definition(), 3, 3, "ann".to_string(), &mut se, &w), Ok(()));
    assert!(has_entity(&se, 1, 2));
    assert!(!has_entity(&se, 1, 3));
    assert_eq!(get_entity(&se, 1, 2).unwrap().entity_type(), "mob");
    assert_eq!(get_entity(&se, 1, 2).unwrap().name(), "rat");
    assert_eq!(get_entity(&se, 2, 1).unwrap().entity_type(), "chest");
    assert_eq!(get_entity(&se, 3, 3).unwrap().entity_type(), "trading_mob");
    assert!(get_entity(&se, 0, 0).is_none());
}

#[test]
fn spawn_refuses_what_it_cannot_build() {
    let w = world();
    let mut se = SpawnedEntities::new();
    let unknown = store(vec![("entity_type", text("dragon"))]);
    assert_eq!(
        spawn(unknown, 1, 2, "d".to_string(), &mut se, &w),
        Err(Error::UnknownEntityType)
    );
    assert_eq!(spawn(Stats::new(), 1, 2, "d".to_string(), &mut se, &w), Err(Error::MissingKey));
    let untyped = store(vec![("entity_type", Value::Int(1))]);
    assert_eq!(spawn(untyped, 1, 2, "d".to_string(), &mut se, &w), Err(Error::TypeMismatch));
    let broken = store(vec![("entity_type", text("mob"))]);
    assert_eq!(spawn(broken, 1, 2, "d".to_string(), &mut se, &w), Err(Error::MissingKey));
    assert!(!has_entity(&se, 1, 2));
}

#[test]
fn create_functions_build_each_type() {
    let w = world();
    assert_eq!(
        create_mob(mob_definition(), 1, 1, "a".to_string(), &w).unwrap().entity_type(),
        "mob"
    );
    assert_eq!(
        create_trading_mob(trader_definition(), 1, 1, "a".to_string(), &w).unwrap().entity_type(),
        "trading_mob"
    );
    assert_eq!(
        create_chest(chest_definition(), 1, 1, "a".to_string(), &w).unwrap().entity_type(),
        "chest"
    );
}

#[test]
fn the_table_holds_one_entity_on_a_tile() {
    let mut w = world();
    w.place_entity(1, 2, 0);
    let mut se = SpawnedEntities::new();
    se.put(1, 2, Entity::Chest(LootChest::with_items(1, 2, "a".to_string(), Stats::new())));
    se.put(1, 2, Entity::Chest(LootChest::with_items(1, 2, "b".to_string(), Stats::new())));
    assert_eq!(get_entity(&se, 1, 2).unwrap().name(), "b");
    get_entity_mut(&mut se, 1, 2).unwrap().mut_data().set("gem", Value::Int(1));
    assert_eq!(get_entity(&se, 1, 2).unwrap().state().get_int("gem"), Ok(1));
    assert!(get_entity_mut(&mut se, 2, 1).is_none());
    assert_eq!(se.take(1, 2).unwrap().name(), "b");
    assert!(se.take(1, 2).is_none());
    se.put(1, 2, Entity::Chest(LootChest::with_items(1, 2, "c".to_string(), Stats::new())));
    remove_entity(&mut w, &mut se, 1, 2);
    assert!(!has_entity(&se, 1, 2));
    assert!(!w.has_entity(1, 2));
}

#[test]
fn each_type_knows_its_actions() {
    let w = world();
    let mut se = SpawnedEntities::new();
    spawn(mob_definition(), 1, 1, "rat".to_string(), &mut se, &w).unwrap();
    spawn(chest_definition(), 2, 2, "crate".to_string(), &mut se, &w).unwrap();
    spawn(trader_definition(), 3, 3, "ann".to_string(), &mut se, &w).unwrap();
    let find = |keyword: &str, x: u16| get_entity_action(&se, keyword.to_string(), x, x);
    assert_eq!(find("interact", 1), Some(Action::InteractMob));
    assert_eq!(find("dmg", 1), Some(Action::Dmg));
    assert_eq!(find("attack", 1), Some(Action::Attack));
    assert_eq!(find("trade", 1), None);
    assert_eq!(find("interact", 2), Some(Action::ChestInteract));
    assert_eq!(find("dmg", 2), None);
    assert_eq!(find("attack", 2), None);
    assert_eq!(find("trade", 3), Some(Action::Trade));
    assert_eq!(find("dmg", 3), Some(Action::Dmg));
    assert_eq!(find("interact", 3), Some(Action::InteractMob));
    assert_eq!(find("dance", 3), None);
    assert_eq!(find("interact", 4), None);
}

#[test]
fn the_registry_knows_its_keywords() {
    for keyword in ["interact", "dmg", "attack", "trade"] {
        assert!(known_keyword(keyword));
    }
    for keyword in ["", "dance", "Trade", "interact ", "dm"] {
        assert!(!known_keyword(keyword));
    }
}
