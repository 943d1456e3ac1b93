use mirae_server::action::Param;
use mirae_server::combat::{
    attack, attack_with, count_abilities, fight_round, interact_mob, interact_mob_with, StrikeDraw,
};
use mirae_server::entities::{
    get_entity, has_entity, Entity, LootChest, Mob, SpawnedEntities, Spawnable, TradingMob,
};
use mirae_server::error::Error;
use mirae_server::handlers::{
    chest_interact, count_quotes, dmg, dmg_with, get_random_quote, pass, pick_quote, trade,
};
use mirae_server::player::Player;
use mirae_server::playerout::{PacketType, PlayerOut};
use mirae_server::stats::{Stats, Value};
use mirae_server::world::{EntityKind, World};

fn store(pairs: Vec<(&str, Value)>) -> Stats {
    let mut s = Stats::new();
    for (name, value) in pairs {
        s.set(name, value);
    }
    s
}

fn boxed(pairs: Vec<(&str, Value)>) -> Value {
    Value::Box(store(pairs))
}

fn text(s: &str) -> Value {
    Value::String(s.to_string())
}

fn world() -> World {
    let slash = boxed(vec![("physical_dmg", Value::Int(4)), ("magic_dmg", Value::Int(1))]);
    let mut w = World::new(
        Vec::new(),
        vec![EntityKind { name: "rat".to_string(), properties: Stats::new() }],
        store(vec![
            ("apple", boxed(vec![("xp", Value::Int(3))])),
            ("sword", boxed(vec![("xp", Value::Int(10)), ("abilities", boxed(vec![("slash", slash)]))])),
            ("stick", boxed(vec![])),
        ]),
        Vec::new(),
        Stats::new(),
        0,
        0,
    );
    w.place_entity(1, 2, 0);
    w
}

fn hero(health: i64, speed: i64) -> Player {
    Player::from(
        1,
        2,
        0,
        store(vec![
            (
                "stats",
                boxed(vec![
                    ("health", Value::Int(health)),
                    ("speed", Value::Int(speed)),
                    ("xp", Value::Int(100)),
                ]),
            ),
            ("inventory", boxed(vec![("apple", Value::Int(2))])),
        ]),
    )
}

fn rat_definition() -> Stats {
    store(vec![
        ("entity_type", text("mob")),
        (
            "stats",
            boxed(vec![
                ("health", Value::Int(20)),
                ("physical_def", Value::Float(500_000)),
                ("speed", Value::Int(10)),
                ("dmg", Value::Int(2)),
                ("xp", Value::Int(11)),
            ]),
        ),
        (
            "quotes",
            boxed(vec![
                ("attack", Value::List(vec![text("grr")])),
                ("player_victory", Value::List(vec![text("argh")])),
                ("entrance", Value::List(vec![text("hi")])),
            ]),
        ),
        (
            "drops",
            boxed(vec![
                ("items", Value::List(vec![text("apple")])),
                ("item_prob", Value::List(vec![Value::Float(1_000_000)])),
                ("item_per", Value::List(vec![Value::Int(2)])),
                ("items_min", Value::Int(1)),
                ("items_max", Value::Int(1)),
            ]),
        ),
    ])
}

fn rat(definition: Stats, tools: Vec<(&str, Value)>) -> Entity {
    Entity::Mob(Mob::with_tools(definition, 1, 2, "rat".to_string(), store(tools)).unwrap())
}

fn scene(entity: Entity, player: Player) -> (SpawnedEntities, Vec<Option<Player>>, World) {
    let mut se = SpawnedEntities::new();
    se.put(1, 2, entity);
    (se, vec![Some(player), None], world())
}

fn read(out: Result<PlayerOut, Error>) -> String {
    let mut out = out.unwrap();
    let mut all = String::new();
    let mut packets = 0;
    while let Some(p) = out.get_pkt() {
        assert_eq!(p.kind(), PacketType::Text);
        all.push_str(std::str::from_utf8(p.content()).unwrap());
        packets += 1;
    }
    assert!(packets <= 1);
    all
}

fn ints(a: i64, b: i64) -> Vec<Param> {
    vec![Param::Int(a), Param::Int(b)]
}

fn health_of(se: &SpawnedEntities) -> i64 {
    get_entity(se, 1, 2).unwrap().state().get_int("health").unwrap()
}

const ROUND: &str =
    "rat: grr\nrat did 2 damage to you.\nrat equipped item sword\nrat used slash and dealt 5 damage.\n";

#[test]
fn pass_holds_back_the_defended_fraction() {
    assert_eq!(pass(10, 500_000), 5);
    assert_eq!(pass(10, 0), 10);
    assert_eq!(pass(10, 1_000_000), 0);
    assert_eq!(pass(7, 500_000), 3);
    assert_eq!(pass(-7, 500_000), -3);
    assert_eq!(pass(-10, 500_000), -5);
    assert_eq!(pass(10, -500_000), 15);
    assert_eq!(pass(1, 999_999), 0);
    assert_eq!(pass(3, 333_333), 2);
    assert_eq!(pass(10, 2_000_000), -10);
    assert_eq!(pass(i64::MAX, -1_000_000), i64::MAX);
    assert_eq!(pass(i64::MIN, -1_000_000), i64::MIN);
    assert_eq!(pass(i64::MAX, 0), i64::MAX);
}

#[test]
fn dmg_takes_what_passes_off_the_health() {
    let (mut se, mut players, mut w) = scene(rat(rat_definition(), vec![]), hero(30, 4));
    let out = dmg(&mut se, &ints(10, 0), 0, &mut players, &mut w);
    assert_eq!(read(out), "rat took 5 damage!\n");
    assert_eq!(health_of(&se), 15);
    assert!(w.has_entity(1, 2));
    let out = dmg(&mut se, &ints(0, 14), 0, &mut players, &mut w);
    assert_eq!(read(out), "rat took 14 damage!\n");
    assert_eq!(health_of(&se), 1);
    assert_eq!(players[0].as_ref().unwrap().stat("xp"), Ok(100));
}

#[test]
fn dmg_fells_the_entity_and_hands_out_the_spoils() {
    let (mut se, mut players, mut w) = scene(rat(rat_definition(), vec![]), hero(30, 4));
    let out = dmg(&mut se, &ints(40, 3), 0, &mut players, &mut w);
    assert_eq!(
        read(out),
        "rat took 23 damage!\nrat: argh\nYou MURDERED rat! CONGRATULATIONS!\nyou got:\napple: 2\nand:\n11 xp.\n"
    );
    assert!(!has_entity(&se, 1, 2));
    assert!(!w.has_entity(1, 2));
    let p = players[0].as_ref().unwrap();
    assert_eq!(p.count_item("apple"), Ok(4));
    assert_eq!(p.stat("xp"), Ok(111));
}

#[test]
fn dmg_fells_at_exactly_the_health() {
    let (mut se, mut players, mut w) = scene(rat(rat_definition(), vec![]), hero(30, 4));
    let out = dmg(&mut se, &ints(0, 20), 0, &mut players, &mut w);
    assert!(read(out).starts_with("rat took 20 damage!\nrat: argh\n"));
    assert!(!has_entity(&se, 1, 2));
}

#[test]
fn dmg_without_drops_still_grants_the_experience() {
    let mut definition = rat_definition();
    definition.remove("drops");
    definition.remove("quotes");
    let (mut se, mut players, mut w) = scene(rat(definition, vec![]), hero(30, 4));
    players[1] = Some(hero(30, 4));
    let out = dmg(&mut se, &ints(0, 99), 0, &mut players, &mut w);
    assert_eq!(
        read(out),
        "rat took 99 damage!\nrat: \nYou MURDERED rat! CONGRATULATIONS!\nyou got:\n11 xp.\n"
    );
    let p = players[0].as_ref().unwrap();
    assert_eq!(p.stat("xp"), Ok(111));
    assert_eq!(p.count_item("apple"), Ok(2));
    assert_eq!(players[1].as_ref().unwrap().stat("xp"), Ok(100));
    assert!(!has_entity(&se, 1, 2));
    assert!(!w.has_entity(1, 2));
}

#[test]
fn dmg_grants_no_experience_where_the_entity_names_none() {
    let mut definition = rat_definition();
    definition.remove("drops");
    definition.set("stats", boxed(vec![("health", Value::Int(5))]));
    let (mut se, mut players, mut w) = scene(rat(definition, vec![]), hero(30, 4));
    let out = dmg(&mut se, &ints(0, 5), 0, &mut players, &mut w);
    assert_eq!(
        read(out),
        "rat took 5 damage!\nrat: argh\nYou MURDERED rat! CONGRATULATIONS!\nyou got:\n0 xp.\n"
    );
    assert_eq!(players[0].as_ref().unwrap().stat("xp"), Ok(100));
}

#[test]
fn dmg_with_takes_quote_and_spoils_as_given() {
    let (mut se, mut players, mut w) = scene(rat(rat_definition(), vec![]), hero(30, 4));
    let spoils = store(vec![("gem", Value::Int(1))]);
    let out = dmg_with(&mut se, &ints(0, 50), 0, &mut players, &mut w, "bye", &spoils);
    assert_eq!(
        read(out),
        "rat took 50 damage!\nrat: bye\nYou MURDERED rat! CONGRATULATIONS!\nyou got:\ngem: 1\nand:\n11 xp.\n"
    );
    assert_eq!(players[0].as_ref().unwrap().count_item("gem"), Ok(1));
}

#[test]
fn dmg_refuses_without_changing_anything() {
    let (mut se, mut players, mut w) = scene(rat(rat_definition(), vec![]), hero(30, 4));
    assert_eq!(dmg(&mut se, &ints(1, 1), 1, &mut players, &mut w).err(), Some(Error::NoSuchPlayer));
    assert_eq!(dmg(&mut se, &ints(1, 1), 9, &mut players, &mut w).err(), Some(Error::NoSuchPlayer));
    assert_eq!(
        dmg(&mut se, &vec![Param::Int(1)], 0, &mut players, &mut w).err(),
        Some(Error::BadParameters)
    );
    assert_eq!(
        dmg(&mut se, &vec![Param::Bool(true), Param::Int(1)], 0, &mut players, &mut w).err(),
        Some(Error::TypeMismatch)
    );
    assert_eq!(
        dmg(&mut se, &ints(i64::MAX, i64::MAX), 0, &mut players, &mut w).err(),
        Some(Error::Overflow)
    );
    assert_eq!(health_of(&se), 20);
    players[0].as_mut().unwrap().set_position(5, 5);
    assert_eq!(dmg(&mut se, &ints(1, 1), 0, &mut players, &mut w).err(), Some(Error::NoSuchEntity));
    let spoils = store(vec![("gem", text("not a count"))]);
    players[0].as_mut().unwrap().set_position(1, 2);
    assert_eq!(
        dmg_with(&mut se, &ints(0, 50), 0, &mut players, &mut w, "bye", &spoils).err(),
        Some(Error::TypeMismatch)
    );
    assert_eq!(health_of(&se), 20);
    assert!(has_entity(&se, 1, 2));
    assert_eq!(players[0].as_ref().unwrap().stat("xp"), Ok(100));
}

#[test]
fn quotes_are_drawn_from_their_list() {
    let data = store(vec![(
        "quotes",
        boxed(vec![("attack", Value::List(vec![text("a"), text("b")])), ("none", Value::List(vec![]))]),
    )]);
    assert_eq!(count_quotes(&data, "attack"), Ok(Some(2)));
    assert_eq!(count_quotes(&data, "entrance"), Ok(None));
    assert_eq!(count_quotes(&Stats::new(), "attack"), Ok(None));
    assert_eq!(pick_quote(&data, "attack", 1), Ok("b".to_string()));
    assert_eq!(pick_quote(&data, "attack", 2), Err(Error::BadOdds));
    assert_eq!(pick_quote(&data, "entrance", 5), Ok(String::new()));
    assert_eq!(pick_quote(&data, "none", 0), Err(Error::BadOdds));
    let chest = LootChest::with_items(0, 0, "c".to_string(), data);
    for _ in 0..20 {
        let q = get_random_quote(&chest, "attack").unwrap();
        assert!(q == "a" || q == "b");
    }
    assert_eq!(get_random_quote(&chest, "none"), Err(Error::BadOdds));
    assert_eq!(get_random_quote(&chest, "entrance"), Ok(String::new()));
}

#[test]
fn chest_interact_hands_over_the_contents() {
    let chest = LootChest::with_items(
        1,
        2,
        "crate".to_string(),
        store(vec![("apple", Value::Int(3)), ("gem", Value::Int(1))]),
    );
    let (mut se, mut players, mut w) = scene(Entity::Chest(chest), hero(30, 4));
    let out = chest_interact(&mut se, 0, &mut players, &mut w);
    assert_eq!(read(out), "you encountered a crate\nyou recieved:\napple: 3\ngem: 1\n");
    let p = players[0].as_ref().unwrap();
    assert_eq!(p.count_item("apple"), Ok(5));
    assert_eq!(p.count_item("gem"), Ok(1));
    assert!(!has_entity(&se, 1, 2));
    assert!(!w.has_entity(1, 2));
    assert_eq!(
        chest_interact(&mut se, 0, &mut players, &mut w).err(),
        Some(Error::NoSuchEntity)
    );
}

#[test]
fn chest_interact_keeps_a_chest_that_cannot_be_emptied() {
    let chest =
        LootChest::with_items(1, 2, "crate".to_string(), store(vec![("note", text("hello"))]));
    let (mut se, mut players, mut w) = scene(Entity::Chest(chest), hero(30, 4));
    assert_eq!(
        chest_interact(&mut se, 0, &mut players, &mut w).err(),
        Some(Error::TypeMismatch)
    );
    assert!(has_entity(&se, 1, 2));
    assert!(w.has_entity(1, 2));
    assert_eq!(players[0].as_ref().unwrap().count_item("note"), Ok(0));
}

fn merchant() -> Entity {
    Entity::TradingMob(
        TradingMob::with_goods(
            store(vec![("stats", boxed(vec![]))]),
            1,
            2,
            "ann".to_string(),
            store(vec![("apple", Value::Int(1)), ("sword", Value::Int(1))]),
            Stats::new(),
        )
        .unwrap(),
    )
}

fn offer(item: &str, count: i64) -> Vec<Param> {
    vec![Param::String(item.to_string()), Param::Int(count)]
}

#[test]
fn trade_lists_the_goods() {
    let (mut se, mut players, mut w) = scene(merchant(), hero(30, 4));
    let out = trade(&mut se, &Vec::new(), 0, &mut players, &mut w);
    assert_eq!(read(out), "the availible trades are:\napple --> 3 xp\nsword --> 10 xp\n");
}

#[test]
fn trade_sells_units_for_experience() {
    let (mut se, mut players, mut w) = scene(merchant(), hero(30, 4));
    let out = trade(&mut se, &offer("apple", 2), 0, &mut players, &mut w);
    assert_eq!(
        read(out),
        "You traded 2 of apple for 6 xp. This is the best trade deal in the history of trade deals, maybe ever.\n"
    );
    let p = players[0].as_ref().unwrap();
    assert_eq!(p.stat("xp"), Ok(106));
    assert_eq!(p.count_item("apple"), Ok(0));
    assert!(!p.data().get_box("inventory").unwrap().has_var("apple"));
    assert!(has_entity(&se, 1, 2));
    assert_eq!(
        get_entity(&se, 1, 2).unwrap().data().get_box("trade_items").unwrap().get_var_names(),
        vec!["apple", "sword"]
    );
}

#[test]
fn trade_of_a_part_keeps_the_rest() {
    let (mut se, mut players, mut w) = scene(merchant(), hero(30, 4));
    let mut gems = Stats::new();
    gems.set("gem", Value::Int(4));
    players[0].as_mut().unwrap().add_items_to_inventory(&gems).unwrap();
    let out = trade(&mut se, &offer("apple", 1), 0, &mut players, &mut w);
    assert!(read(out).starts_with("You traded 1 of apple for 3 xp."));
    let p = players[0].as_ref().unwrap();
    assert_eq!(p.count_item("apple"), Ok(1));
    assert_eq!(p.count_item("gem"), Ok(4));
    assert_eq!(p.stat("xp"), Ok(103));
}

#[test]
fn trade_of_more_than_is_held_changes_nothing() {
    let (mut se, mut players, mut w) = scene(merchant(), hero(30, 4));
    assert_eq!(
        trade(&mut se, &offer("apple", 3), 0, &mut players, &mut w).err(),
        Some(Error::Insufficient(2))
    );
    let p = players[0].as_ref().unwrap();
    assert_eq!(p.count_item("apple"), Ok(2));
    assert_eq!(p.stat("xp"), Ok(100));
    assert_eq!(p.data().get_box("inventory").unwrap().get_var_names(), vec!["apple"]);
    assert_eq!(
        trade(&mut se, &offer("sword", 1), 0, &mut players, &mut w).err(),
        Some(Error::Insufficient(0))
    );
}

#[test]
fn trade_refuses_bad_offers() {
    let (mut se, mut players, mut w) = scene(merchant(), hero(30, 4));
    let mut try_trade = |params: Vec<Param>| trade(&mut se, &params, 0, &mut players, &mut w).err();
    assert_eq!(try_trade(offer("apple", 0)), Some(Error::TradeTooSmall));
    assert_eq!(try_trade(offer("apple", -4)), Some(Error::TradeTooSmall));
    assert_eq!(try_trade(offer("stick", 1)), Some(Error::TradeNotOffered));
    assert_eq!(try_trade(vec![Param::Int(1)]), Some(Error::TradeArity));
    assert_eq!(try_trade(vec![Param::Int(1), Param::Int(1)]), Some(Error::TradeParameters));
    assert_eq!(
        try_trade(vec![Param::String("apple".to_string()), Param::Flt(1)]),
        Some(Error::TradeParameters)
    );
    assert_eq!(
        try_trade(vec![Param::Int(1), Param::Int(1), Param::Int(1)]),
        Some(Error::TradeArity)
    );
    assert_eq!(players[0].as_ref().unwrap().count_item("apple"), Ok(2));
}

#[test]
fn trade_needs_a_trader() {
    let (mut se, mut players, mut w) = scene(rat(rat_definition(), vec![]), hero(30, 4));
    assert_eq!(
        trade(&mut se, &Vec::new(), 0, &mut players, &mut w).err(),
        Some(Error::MissingKey)
    );
}

#[test]
fn attack_fights_until_the_player_has_caught_up() {
    let tools = vec![("sword", Value::Int(1))];
    let (mut se, mut players, mut w) = scene(rat(rat_definition(), tools), hero(30, 4));
    let out = attack(&mut se, 0, &mut players, &mut w);
    assert_eq!(read(out), [ROUND, ROUND, ROUND].concat());
    assert_eq!(players[0].as_ref().unwrap().stat("health"), Ok(9));
    assert_eq!(health_of(&se), 20);
}

#[test]
fn attack_stops_when_the_player_dies() {
    let tools = vec![("sword", Value::Int(1))];
    let (mut se, mut players, mut w) = scene(rat(rat_definition(), tools), hero(10, 4));
    let out = attack(&mut se, 0, &mut players, &mut w);
    assert_eq!(read(out), [ROUND, ROUND, "YOU DIED.\n"].concat());
    assert_eq!(players[0].as_ref().unwrap().stat("health"), Ok(-4));
    assert_eq!(players[0].as_ref().unwrap().is_dead(), Ok(true));
}

#[test]
fn attack_with_a_tool_without_abilities() {
    let tools = vec![("stick", Value::Int(1))];
    let (mut se, mut players, mut w) = scene(rat(rat_definition(), tools), hero(30, 10));
    let out = attack(&mut se, 0, &mut players, &mut w);
    assert_eq!(
        read(out),
        "rat: grr\nrat did 2 damage to you.\nrat chose to use stick, which has no abilities. Lucky you.\n"
    );
    assert_eq!(players[0].as_ref().unwrap().stat("health"), Ok(28));
}

#[test]
fn attack_without_tools() {
    let (mut se, mut players, mut w) = scene(rat(rat_definition(), vec![]), hero(30, 5));
    let out = attack(&mut se, 0, &mut players, &mut w);
    assert_eq!(read(out), "rat: grr\nrat did 2 damage to you.\n".repeat(2));
    assert_eq!(players[0].as_ref().unwrap().stat("health"), Ok(26));
}

#[test]
fn attack_of_a_mob_without_speed_is_no_fight() {
    let mut definition = rat_definition();
    definition.set("stats", boxed(vec![("health", Value::Int(20))]));
    let (mut se, mut players, mut w) = scene(rat(definition, vec![]), hero(30, 0));
    let mut out = attack(&mut se, 0, &mut players, &mut w).unwrap();
    assert_eq!(out.len(), 0);
    assert!(out.get_pkt().is_none());
    assert_eq!(players[0].as_ref().unwrap().stat("health"), Ok(30));
}

#[test]
fn attack_needs_a_player_who_moves() {
    let (mut se, mut players, mut w) = scene(rat(rat_definition(), vec![]), hero(30, 0));
    assert_eq!(attack(&mut se, 0, &mut players, &mut w).err(), Some(Error::NoProgress));
    let (mut se, mut players, mut w) = scene(rat(rat_definition(), vec![]), hero(30, -2));
    assert_eq!(attack(&mut se, 0, &mut players, &mut w).err(), Some(Error::NoProgress));
    assert_eq!(players[0].as_ref().unwrap().stat("health"), Ok(30));
}

fn draw(quote: &str, weapon: usize, ability: usize) -> StrikeDraw {
    StrikeDraw { quote: quote.to_string(), weapon, ability }
}

#[test]
fn attack_with_follows_the_strikes_it_is_given() {
    let tools = vec![("stick", Value::Int(1)), ("sword", Value::Int(1))];
    let (mut se, mut players, mut w) = scene(rat(rat_definition(), tools), hero(30, 5));
    let draws = vec![draw("one", 0, 0), draw("two", 1, 0), draw("unused", 0, 0)];
    let out = attack_with(&mut se, 0, &mut players, &mut w, &draws);
    assert_eq!(
        read(out),
        "rat: one\nrat did 2 damage to you.\nrat chose to use stick, which has no abilities. Lucky you.\nrat: two\nrat did 2 damage to you.\nrat equipped item sword\nrat used slash and dealt 5 damage.\n"
    );
    assert_eq!(players[0].as_ref().unwrap().stat("health"), Ok(21));
}

#[test]
fn attack_with_refuses_strikes_that_do_not_fit() {
    let tools = vec![("sword", Value::Int(1))];
    let (mut se, mut players, mut w) = scene(rat(rat_definition(), tools), hero(30, 5));
    assert_eq!(
        attack_with(&mut se, 0, &mut players, &mut w, &vec![draw("a", 0, 0)]).err(),
        Some(Error::BadOdds)
    );
    assert_eq!(
        attack_with(&mut se, 0, &mut players, &mut w, &vec![draw("a", 1, 0), draw("b", 0, 0)]).err(),
        Some(Error::BadOdds)
    );
    assert_eq!(
        attack_with(&mut se, 0, &mut players, &mut w, &vec![draw("a", 0, 0), draw("b", 0, 1)]).err(),
        Some(Error::BadOdds)
    );
    assert_eq!(players[0].as_ref().unwrap().stat("health"), Ok(30));
    assert_eq!(count_abilities(&w, &store(vec![("sword", Value::Int(1))]), 0), 1);
    assert_eq!(count_abilities(&w, &store(vec![("stick", Value::Int(1))]), 0), 0);
    assert_eq!(count_abilities(&w, &store(vec![("sword", Value::Int(1))]), 3), 0);
}

#[test]
fn fight_round_tells_what_happened() {
    let w = world();
    let shown = store(vec![("tools", boxed(vec![("sword", Value::Int(1))]))]);
    let mut fighter = hero(7, 1);
    let mut said = b"before ".to_vec();
    assert_eq!(fight_round("bat", &shown, &w, &mut fighter, &mut said, 1, "eek", 0, 0), Ok(false));
    assert_eq!(fighter.stat("health"), Ok(1));
    assert_eq!(
        String::from_utf8(said).unwrap(),
        "before bat: eek\nbat did 1 damage to you.\nbat equipped item sword\nbat used slash and dealt 5 damage.\n"
    );
    let mut said = Vec::new();
    assert_eq!(fight_round("bat", &shown, &w, &mut fighter, &mut said, -6, "", 0, 0), Ok(false));
    assert_eq!(fighter.stat("health"), Ok(2));
    assert_eq!(fight_round("bat", &shown, &w, &mut fighter, &mut said, 0, "", 0, 0), Ok(true));
    assert_eq!(
        fight_round("bat", &shown, &w, &mut fighter, &mut said, i64::MIN, "", 0, 0),
        Err(Error::Overflow)
    );
    assert_eq!(
        fight_round("bat", &Stats::new(), &w, &mut fighter, &mut said, 0, "", 0, 0),
        Err(Error::MissingKey)
    );
}

#[test]
fn interact_mob_greets() {
    let mut definition = rat_definition();
    definition.set("img", Value::LongString("(\\_/)\n".to_string()));
    let (mut se, mut players, mut w) = scene(rat(definition, vec![]), hero(30, 4));
    let out = interact_mob(&mut se, 0, &mut players, &mut w);
    assert_eq!(read(out), "You have encountered rat\nrat: hi\n(\\_/)\n");
    assert_eq!(players[0].as_ref().unwrap().stat("health"), Ok(30));
}

#[test]
fn interact_mob_attacks_first_if_it_is_faster() {
    let mut definition = rat_definition();
    definition.set("attack_first", Value::Int(1));
    let (mut se, mut players, mut w) = scene(rat(definition.clone(), vec![]), hero(30, 5));
    let out = interact_mob(&mut se, 0, &mut players, &mut w);
    assert_eq!(
        read(out),
        "You have encountered rat\nrat: hi\nrat: grr\nrat did 2 damage to you.\nrat: grr\nrat did 2 damage to you.\n"
    );
    assert_eq!(players[0].as_ref().unwrap().stat("health"), Ok(26));
    let (mut se, mut players, mut w) = scene(rat(definition, vec![]), hero(30, 10));
    let out = interact_mob(&mut se, 0, &mut players, &mut w);
    assert_eq!(read(out), "You have encountered rat\nrat: hi\n");
    assert_eq!(players[0].as_ref().unwrap().stat("health"), Ok(30));
}

#[test]
fn interact_mob_with_takes_quote_and_strikes_as_given() {
    let mut definition = rat_definition();
    definition.set("attack_first", Value::Int(1));
    let (mut se, mut players, mut w) = scene(rat(definition, vec![]), hero(30, 9));
    let draws = vec![draw("x", 0, 0), draw("y", 0, 0)];
    let out = interact_mob_with(&mut se, 0, &mut players, &mut w, "yo", &draws);
    assert_eq!(
        read(out),
        "You have encountered rat\nrat: yo\nrat: x\nrat did 2 damage to you.\nrat: y\nrat did 2 damage to you.\n"
    );
    let (mut se, mut players, mut w) = scene(rat(rat_definition(), vec![]), hero(30, 9));
    let mut bad = rat_definition();
    bad.set("img", text("short"));
    let out = interact_mob_with(&mut se, 0, &mut players, &mut w, "yo", &Vec::new());
    assert_eq!(read(out), "You have encountered rat\nrat: yo\n");
    let (mut se, mut players, mut w) = scene(rat(bad, vec![]), hero(30, 9));
    assert_eq!(
        interact_mob_with(&mut se, 0, &mut players, &mut w, "yo", &Vec::new()).err(),
        Some(Error::TypeMismatch)
    );
}
