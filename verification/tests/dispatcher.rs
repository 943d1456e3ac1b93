use mirae_server::action::{Action, Param};
use mirae_server::dispatcher::{
    connect, disconnect, drop_player, follow_command, get_first_availible_id, refuse, run_action,
    spawn_waiting, sweep_turns, Delivery, MAX_TURN_TIME_MILLIS,
};
use mirae_server::entities::{get_entity, has_entity, SpawnedEntities, Spawnable};
use mirae_server::error::Error;
use mirae_server::init::get_init;
use mirae_server::player::Player;
use mirae_server::playerout::{PacketType, PlayerOut};
use mirae_server::stats::{Stats, Value};
use mirae_server::world::{EntityKind, World};

fn store(pairs: Vec<(&str, Value)>) -> Stats {
    let mut s = Stats::new();
    for (name, value) in pairs {
        s.set(name, value);
    }
    s
}

fn boxed(pairs: Vec<(&str, Value)>) -> Value {
    Value::Box(store(pairs))
}

fn text(s: &str) -> Value {
    Value::String(s.to_string())
}

fn rat_definition() -> Stats {
    store(vec![
        ("entity_type", text("mob")),
        ("display", text("r")),
        ("stats", boxed(vec![("health", Value::Int(20))])),
        ("quotes", boxed(vec![("entrance", Value::List(vec![text("hi")]))])),
    ])
}

fn defaults() -> Stats {
    store(vec![
        ("stats", boxed(vec![("health", Value::Int(30)), ("speed", Value::Int(4))])),
        ("inventory", boxed(vec![])),
    ])
}

fn world() -> World {
    let mut w = World::new(
        vec![
            store(vec![("display", Value::Int(7))]),
            store(vec![("display", Value::Int(65536 + 300))]),
        ],
        vec![
            EntityKind { name: "rat".to_string(), properties: rat_definition() },
            EntityKind { name: "crate".to_string(), properties: store(vec![("entity_type", text("chest"))]) },
            EntityKind { name: "odd".to_string(), properties: store(vec![("display", text("\"\\"))]) },
        ],
        Stats::new(),
        Vec::new(),
        defaults(),
        5,
        6,
    );
    w.place_entity(5, 6, 0);
    w.place_entity(7, 7, 2);
    w
}

const DOCUMENT: &str =
    "{\"block_display\":{\"0\":7,\"1\":300},\"default_entity\":\"??\",\"entity_display\":{\"0\":\"r\",\"2\":\"\\\"\\\\\"}}";

fn packets(out: &mut PlayerOut) -> Vec<(PacketType, String)> {
    let mut all = Vec::new();
    while let Some(p) = out.get_pkt() {
        all.push((p.kind(), String::from_utf8(p.content().clone()).unwrap()));
    }
    all
}

fn told(deliveries: Vec<Delivery>) -> Vec<(u8, Vec<(PacketType, String)>)> {
    deliveries.into_iter().map(|mut d| (d.to, packets(&mut d.out))).collect()
}

fn duelist(id: u8, turn: bool, opponent: Option<u8>, since: u64) -> Player {
    let mut p = Player::from(0, 0, id, defaults());
    p.set_turn(turn);
    p.set_opponent(opponent);
    p.set_last_turn_time(since);
    p
}

fn full_table() -> Vec<Option<Player>> {
    (0..256usize).map(|i| Some(Player::from(1, 1, i as u8, defaults()))).collect()
}

const SLOW: &str = "You're TOO SLOW!!! Your turn is up!\n";
const YOURS: &str = "Your opponent was TOO SLOW!!! It's your turn now!\n";

#[test]
fn first_free_id_is_the_lowest() {
    let p = || Some(Player::from(0, 0, 0, Stats::new()));
    assert_eq!(get_first_availible_id(&vec![p(), None, p(), None]), Some(1));
    assert_eq!(get_first_availible_id(&vec![None, None]), Some(0));
    assert_eq!(get_first_availible_id(&vec![p(), p()]), None);
    assert_eq!(get_first_availible_id(&Vec::new()), None);
    let mut table = full_table();
    assert_eq!(get_first_availible_id(&table), None);
    table.push(None);
    assert_eq!(get_first_availible_id(&table), None);
    table[255] = None;
    assert_eq!(get_first_availible_id(&table), Some(255));
}

#[test]
fn get_init_writes_the_display_tables() {
    let init = get_init(&world()).unwrap();
    assert_eq!(init.kind(), PacketType::Init);
    assert_eq!(std::str::from_utf8(init.content()).unwrap(), DOCUMENT);
}

#[test]
fn get_init_of_an_empty_world() {
    let w = World::new(Vec::new(), Vec::new(), Stats::new(), Vec::new(), Stats::new(), 0, 0);
    let init = get_init(&w).unwrap();
    assert_eq!(
        std::str::from_utf8(init.content()).unwrap(),
        "{\"block_display\":{},\"default_entity\":\"??\",\"entity_display\":{}}"
    );
}

#[test]
fn get_init_needs_a_display_for_every_block() {
    let blocks = vec![store(vec![("display", Value::Int(1))]), Stats::new()];
    let w = World::new(blocks, Vec::new(), Stats::new(), Vec::new(), Stats::new(), 0, 0);
    assert_eq!(get_init(&w).err(), Some(Error::MissingKey));
    let blocks = vec![store(vec![("display", text("x"))])];
    let w = World::new(blocks, Vec::new(), Stats::new(), Vec::new(), Stats::new(), 0, 0);
    assert_eq!(get_init(&w).err(), Some(Error::TypeMismatch));
    let kinds = vec![EntityKind { name: "k".to_string(), properties: store(vec![("display", Value::Int(1))]) }];
    let w = World::new(Vec::new(), kinds, Stats::new(), Vec::new(), Stats::new(), 0, 0);
    assert_eq!(get_init(&w).err(), Some(Error::TypeMismatch));
}

#[test]
fn get_init_keeps_the_low_bits_of_a_display_code() {
    let blocks = vec![
        store(vec![("display", Value::Int(-1))]),
        store(vec![("display", Value::Int(65535))]),
        store(vec![("display", Value::Int(65536))]),
        store(vec![("display", Value::Int(i64::MIN))]),
    ];
    let w = World::new(blocks, Vec::new(), Stats::new(), Vec::new(), Stats::new(), 0, 0);
    assert_eq!(
        std::str::from_utf8(get_init(&w).unwrap().content()).unwrap(),
        "{\"block_display\":{\"0\":65535,\"1\":65535,\"2\":0,\"3\":0},\"default_entity\":\"??\",\"entity_display\":{}}"
    );
}

#[test]
fn connect_gives_the_first_free_id_and_the_init_packet() {
    let w = world();
    let mut players: Vec<Option<Player>> = vec![Some(Player::from(0, 0, 0, Stats::new())), None, None];
    let (mut out, id) = connect(&mut players, &w);
    assert_eq!(id, Some(1));
    assert_eq!(packets(&mut out), vec![(PacketType::Init, DOCUMENT.to_string())]);
    let p = players[1].as_ref().unwrap();
    assert_eq!((p.x(), p.y()), (5, 6));
    assert_eq!(p.identity_id(), Ok(1));
    assert_eq!(p.stat("health"), Ok(30));
    assert!(!p.turn());
    assert_eq!(p.opponent(), None);
    assert!(players[2].is_none());
    let (_, id) = connect(&mut players, &w);
    assert_eq!(id, Some(2));
}

#[test]
fn connect_beyond_capacity_is_refused() {
    let w = world();
    let mut players = full_table();
    players[17].as_mut().unwrap().set_turn(true);
    let (mut out, id) = connect(&mut players, &w);
    assert_eq!(id, None);
    assert_eq!(
        packets(&mut out),
        vec![(PacketType::Error, "There are already 256 players in the game!".to_string())]
    );
    assert_eq!(players.len(), 256);
    for (i, slot) in players.iter().enumerate() {
        let p = slot.as_ref().unwrap();
        assert_eq!(p.identity_id(), Ok(i as i64));
        assert_eq!((p.x(), p.y()), (1, 1));
        assert_eq!(p.turn(), i == 17);
    }
}

#[test]
fn connect_takes_the_last_free_id() {
    let w = world();
    let mut players = full_table();
    players[255] = None;
    let (_, id) = connect(&mut players, &w);
    assert_eq!(id, Some(255));
    assert_eq!(players[255].as_ref().unwrap().identity_id(), Ok(255));
    assert_eq!(connect(&mut players, &w).1, None);
}

#[test]
fn connect_without_display_tables_is_refused() {
    let w = World::new(vec![Stats::new()], Vec::new(), Stats::new(), Vec::new(), Stats::new(), 0, 0);
    let mut players: Vec<Option<Player>> = vec![None];
    let (mut out, id) = connect(&mut players, &w);
    assert_eq!(id, None);
    assert_eq!(packets(&mut out), vec![(PacketType::Error, "an attribute is missing".to_string())]);
    assert!(players[0].is_none());
}

#[test]
fn disconnect_releases_the_opponent() {
    let mut players = vec![
        Some(duelist(0, true, Some(1), 5)),
        Some(duelist(1, false, Some(0), 5)),
        Some(duelist(2, false, None, 5)),
    ];
    let notice = disconnect(&mut players, 0).unwrap();
    assert_eq!(notice.to, 1);
    assert_eq!(
        told(vec![notice]),
        vec![(1, vec![(PacketType::Text, "Your opponent has disconnected!".to_string())])]
    );
    assert!(players[0].is_none());
    assert_eq!(players[1].as_ref().unwrap().opponent(), None);
    assert!(disconnect(&mut players, 2).is_none());
    assert!(players[2].is_none());
    assert!(disconnect(&mut players, 2).is_none());
    assert!(disconnect(&mut players, 200).is_none());
    assert!(players[1].is_some());
}

#[test]
fn disconnect_with_an_opponent_who_is_gone() {
    let mut players = vec![Some(duelist(0, true, Some(1), 5)), None];
    assert!(disconnect(&mut players, 0).is_none());
    assert!(players[0].is_none());
    let mut players = vec![Some(duelist(0, true, Some(9), 5))];
    assert!(disconnect(&mut players, 0).is_none());
    assert!(players[0].is_none());
}

#[test]
fn drop_player_empties_one_slot() {
    let mut players = vec![Some(duelist(0, true, Some(1), 5)), Some(duelist(1, false, Some(0), 5))];
    drop_player(&mut players, 0);
    drop_player(&mut players, 7);
    assert!(players[0].is_none());
    assert_eq!(players[1].as_ref().unwrap().opponent(), Some(0));
}

#[test]
fn sweep_hands_an_overdue_turn_to_the_opponent() {
    let now = 1000 + MAX_TURN_TIME_MILLIS + 1;
    let mut players = vec![
        Some(duelist(0, true, Some(1), 1000)),
        Some(duelist(1, false, Some(0), 500)),
        None,
        Some(duelist(3, true, None, 0)),
    ];
    let notices = told(sweep_turns(&mut players, now));
    assert_eq!(
        notices,
        vec![
            (0, vec![(PacketType::Text, SLOW.to_string())]),
            (1, vec![(PacketType::Text, YOURS.to_string())]),
        ]
    );
    let slow = players[0].as_ref().unwrap();
    assert!(!slow.turn());
    assert_eq!(slow.get_last_turn_time(), 1000);
    assert_eq!(slow.opponent(), Some(1));
    let heir = players[1].as_ref().unwrap();
    assert!(heir.turn());
    assert_eq!(heir.get_last_turn_time(), now);
    let alone = players[3].as_ref().unwrap();
    assert!(alone.turn());
    assert_eq!(alone.get_last_turn_time(), 0);
}

#[test]
fn sweep_leaves_a_turn_that_is_not_overdue() {
    let mut players = vec![
        Some(duelist(0, true, Some(1), 1000)),
        Some(duelist(1, false, Some(0), 500)),
    ];
    assert!(sweep_turns(&mut players, 1000 + MAX_TURN_TIME_MILLIS).is_empty());
    assert!(sweep_turns(&mut players, 999).is_empty());
    assert!(players[0].as_ref().unwrap().turn());
    assert!(!players[1].as_ref().unwrap().turn());
    assert_eq!(players[1].as_ref().unwrap().get_last_turn_time(), 500);
    assert_eq!(MAX_TURN_TIME_MILLIS, 10_000);
}

#[test]
fn sweep_tells_the_slow_before_the_heirs() {
    let mut players = vec![
        Some(duelist(0, true, Some(3), 0)),
        Some(duelist(1, true, Some(2), 0)),
        Some(duelist(2, false, Some(1), 0)),
        None,
    ];
    let notices = told(sweep_turns(&mut players, 20_000));
    assert_eq!(
        notices.iter().map(|n| (n.0, n.1[0].1.as_str())).collect::<Vec<_>>(),
        vec![(0, SLOW), (1, SLOW), (2, YOURS)]
    );
    assert!(!players[0].as_ref().unwrap().turn());
    assert!(!players[1].as_ref().unwrap().turn());
    assert!(players[2].as_ref().unwrap().turn());
    assert_eq!(players[2].as_ref().unwrap().get_last_turn_time(), 20_000);
}

#[test]
fn sweep_of_two_who_both_hold_the_turn() {
    let mut players = vec![
        Some(duelist(0, true, Some(1), 0)),
        Some(duelist(1, true, Some(0), 0)),
    ];
    let notices = told(sweep_turns(&mut players, 20_000));
    assert_eq!(notices.len(), 4);
    assert!(players[0].as_ref().unwrap().turn());
    assert!(players[1].as_ref().unwrap().turn());
    assert_eq!(players[0].as_ref().unwrap().get_last_turn_time(), 20_000);
}

#[test]
fn refuse_queues_the_message_of_the_error() {
    let mut out = PlayerOut::new();
    out.append("a");
    refuse(&mut out, Error::TradeNotOffered);
    assert_eq!(
        packets(&mut out),
        vec![
            (PacketType::Text, "a".to_string()),
            (PacketType::Error, "that trade is not offered!".to_string()),
        ]
    );
}

#[test]
fn spawn_waiting_builds_what_waits() {
    let w = world();
    let mut se = SpawnedEntities::new();
    let players: Vec<Option<Player>> = Vec::new();
    spawn_waiting(&mut se, &players, &w, 1, 1);
    assert!(!has_entity(&se, 1, 1));
    spawn_waiting(&mut se, &players, &w, 5, 6);
    assert_eq!(get_entity(&se, 5, 6).unwrap().name(), "rat");
    spawn_waiting(&mut se, &players, &w, 7, 7);
    assert!(!has_entity(&se, 7, 7));
}

#[test]
fn follow_command_spawns_and_greets_once() {
    let mut w = world();
    let mut se = SpawnedEntities::new();
    let mut players: Vec<Option<Player>> = vec![None];
    connect(&mut players, &w);
    let mut own = PlayerOut::new();
    own.append("you look around\n");
    let mut reply = follow_command(Some(Ok(own)), 0, &mut players, &mut w, &mut se).unwrap();
    assert_eq!(
        packets(&mut reply),
        vec![(PacketType::Text, "you look around\nYou have encountered rat\nrat: hi\n".to_string())]
    );
    assert!(has_entity(&se, 5, 6));
    assert!(players[0].as_ref().unwrap().interact());
    let mut own = PlayerOut::new();
    own.append("again\n");
    let mut reply = follow_command(Some(Ok(own)), 0, &mut players, &mut w, &mut se).unwrap();
    assert_eq!(packets(&mut reply), vec![(PacketType::Text, "again\n".to_string())]);
}

#[test]
fn follow_command_reports_a_failed_command() {
    let mut w = world();
    let mut se = SpawnedEntities::new();
    let mut players: Vec<Option<Player>> = vec![None];
    connect(&mut players, &w);
    let mut reply =
        follow_command(Some(Err(Error::BadParameters)), 0, &mut players, &mut w, &mut se).unwrap();
    assert_eq!(
        packets(&mut reply),
        vec![
            (PacketType::Error, "the parameters do not fit the command".to_string()),
            (PacketType::Text, "You have encountered rat\nrat: hi\n".to_string()),
        ]
    );
    players[0].as_mut().unwrap().set_position(1, 1);
    let mut reply =
        follow_command(Some(Err(Error::NoSuchEntity)), 0, &mut players, &mut w, &mut se).unwrap();
    assert_eq!(
        packets(&mut reply),
        vec![(PacketType::Error, "no spawned entity at location!".to_string())]
    );
}

#[test]
fn follow_command_without_a_result_or_a_player() {
    let mut w = world();
    let mut se = SpawnedEntities::new();
    let mut players: Vec<Option<Player>> = vec![None];
    assert!(follow_command(Some(Ok(PlayerOut::new())), 0, &mut players, &mut w, &mut se).is_none());
    assert!(follow_command(Some(Ok(PlayerOut::new())), 4, &mut players, &mut w, &mut se).is_none());
    connect(&mut players, &w);
    assert!(follow_command(None, 0, &mut players, &mut w, &mut se).is_none());
    assert!(!has_entity(&se, 5, 6));
    assert!(!players[0].as_ref().unwrap().interact());
}

#[test]
fn run_action_runs_the_handler_it_names() {
    let mut w = world();
    let mut se = SpawnedEntities::new();
    let mut players: Vec<Option<Player>> = vec![None];
    connect(&mut players, &w);
    spawn_waiting(&mut se, &players, &w, 5, 6);
    assert!(run_action(Action::Dmg, &mut se, None, 0, &mut players, &mut w).is_none());
    assert!(run_action(Action::Trade, &mut se, None, 0, &mut players, &mut w).is_none());
    let params = vec![Param::Int(0), Param::Int(5)];
    let mut out =
        run_action(Action::Dmg, &mut se, Some(&params), 0, &mut players, &mut w).unwrap().unwrap();
    assert_eq!(packets(&mut out), vec![(PacketType::Text, "rat took 5 damage!\n".to_string())]);
    let mut out =
        run_action(Action::InteractMob, &mut se, None, 0, &mut players, &mut w).unwrap().unwrap();
    assert_eq!(
        packets(&mut out),
        vec![(PacketType::Text, "You have encountered rat\nrat: hi\n".to_string())]
    );
    let mut out =
        run_action(Action::Attack, &mut se, None, 0, &mut players, &mut w).unwrap().unwrap();
    assert!(packets(&mut out).is_empty());
    assert_eq!(
        run_action(Action::Trade, &mut se, Some(&params), 0, &mut players, &mut w).unwrap().err(),
        Some(Error::MissingKey)
    );
    let out = run_action(Action::ChestInteract, &mut se, None, 0, &mut players, &mut w).unwrap();
    assert_eq!(out.err(), Some(Error::TypeMismatch));
    assert!(has_entity(&se, 5, 6));
}
