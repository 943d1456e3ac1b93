use mirae_server::error::Error;
use mirae_server::player::Player;
use mirae_server::stats::{Stats, Value};

fn hero() -> Player {
    let mut stats = Stats::new();
    stats.set("health", Value::Int(30));
    stats.set("speed", Value::Int(4));
    stats.set("xp", Value::Int(100));
    let mut inventory = Stats::new();
    inventory.set("apple", Value::Int(2));
    let mut identity = Stats::new();
    identity.set("name", Value::String("ada".to_string()));
    let mut data = Stats::new();
    data.set("stats", Value::Box(stats));
    data.set("inventory", Value::Box(inventory));
    data.set("identity", Value::Box(identity));
    Player::from(3, 4, 7, data)
}

fn items(pairs: &[(&str, i64)]) -> Stats {
    let mut s = Stats::new();
    for (name, count) in pairs {
        s.set(name, Value::Int(*count));
    }
    s
}

#[test]
fn from_writes_the_id_into_the_identity() {
    let p = hero();
    assert_eq!((p.x(), p.y()), (3, 4));
    assert_eq!(p.identity_id(), Ok(7));
    let identity = p.data().get_box("identity").unwrap();
    assert_eq!(identity.get_string("name").unwrap(), "ada");
    assert!(!p.turn());
    assert_eq!(p.opponent(), None);
    assert!(!p.interact());
    assert_eq!(p.get_last_turn_time(), 0);
}

#[test]
fn from_makes_an_identity_where_there_is_none() {
    let p = Player::from(0, 0, 255, Stats::new());
    assert_eq!(p.identity_id(), Ok(255));
    let mut data = Stats::new();
    data.set("identity", Value::Int(5));
    assert_eq!(Player::from(0, 0, 1, data).identity_id(), Ok(1));
}

#[test]
fn setters_change_one_thing() {
    let mut p = hero();
    p.set_turn(true);
    p.set_opponent(Some(9));
    p.set_last_turn_time(1234);
    p.set_interact(true);
    p.set_position(10, 11);
    assert!(p.turn());
    assert_eq!(p.opponent(), Some(9));
    assert_eq!(p.get_last_turn_time(), 1234);
    assert!(p.interact());
    assert_eq!((p.x(), p.y()), (10, 11));
    assert_eq!(p.stat("health"), Ok(30));
}

#[test]
fn change_stat_adds_to_a_stat() {
    let mut p = hero();
    assert_eq!(p.change_stat("health", -12), Ok(()));
    assert_eq!(p.stat("health"), Ok(18));
    assert_eq!(p.stat("speed"), Ok(4));
    assert_eq!(p.change_xp(5), Ok(()));
    assert_eq!(p.stat("xp"), Ok(105));
}

#[test]
fn change_stat_fails_without_changing() {
    let mut p = hero();
    assert_eq!(p.change_stat("luck", 1), Err(Error::MissingKey));
    assert_eq!(p.change_stat("health", i64::MAX), Err(Error::Overflow));
    assert_eq!(p.stat("health"), Ok(30));
    let mut bare = Player::from(0, 0, 0, Stats::new());
    assert_eq!(bare.change_stat("health", 1), Err(Error::MissingKey));
    assert_eq!(bare.is_dead(), Err(Error::MissingKey));
}

#[test]
fn is_dead_once_health_is_spent() {
    let mut p = hero();
    assert_eq!(p.is_dead(), Ok(false));
    p.change_stat("health", -29).unwrap();
    assert_eq!(p.is_dead(), Ok(false));
    p.change_stat("health", -1).unwrap();
    assert_eq!(p.is_dead(), Ok(true));
    p.change_stat("health", -5).unwrap();
    assert_eq!(p.is_dead(), Ok(true));
}

#[test]
fn add_items_sums_up_counts() {
    let mut p = hero();
    assert_eq!(p.add_items_to_inventory(&items(&[("apple", 3), ("sword", 1)])), Ok(()));
    assert_eq!(p.count_item("apple"), Ok(5));
    assert_eq!(p.count_item("sword"), Ok(1));
    assert_eq!(p.count_item("shield"), Ok(0));
    assert_eq!(
        p.data().get_box("inventory").unwrap().get_var_names(),
        vec!["apple", "sword"]
    );
}

#[test]
fn add_items_is_all_or_nothing() {
    let mut p = hero();
    let mut bad = items(&[("sword", 1)]);
    bad.set("note", Value::String("x".to_string()));
    assert_eq!(p.add_items_to_inventory(&bad), Err(Error::TypeMismatch));
    assert_eq!(p.count_item("sword"), Ok(0));
    assert_eq!(
        p.add_items_to_inventory(&items(&[("pear", 1), ("apple", i64::MAX)])),
        Err(Error::Overflow)
    );
    assert_eq!(p.count_item("pear"), Ok(0));
    assert_eq!(p.count_item("apple"), Ok(2));
}

#[test]
fn remove_items_takes_units_out() {
    let mut p = hero();
    assert_eq!(p.remove_items("apple", 1), Ok(()));
    assert_eq!(p.count_item("apple"), Ok(1));
    assert_eq!(p.remove_items("apple", 1), Ok(()));
    assert_eq!(p.count_item("apple"), Ok(0));
    assert!(!p.data().get_box("inventory").unwrap().has_var("apple"));
}

#[test]
fn remove_items_cannot_take_more_than_there_is() {
    let mut p = hero();
    assert_eq!(p.remove_items("apple", 3), Err(Error::Insufficient(2)));
    assert_eq!(p.remove_items("pear", 1), Err(Error::Insufficient(0)));
    assert_eq!(p.remove_items("apple", -1), Err(Error::BadParameters));
    assert_eq!(p.count_item("apple"), Ok(2));
}

#[test]
fn clone_of_a_player_is_deep() {
    let p = hero();
    let mut copy = p.clone();
    copy.change_stat("health", -30).unwrap();
    copy.set_turn(true);
    assert_eq!(p.stat("health"), Ok(30));
    assert!(!p.turn());
    assert_eq!(copy.stat("health"), Ok(0));
}
