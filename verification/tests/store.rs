use mirae_server::error::Error;
use mirae_server::stats::{Stats, Value};

fn sample() -> Stats {
    let mut inner = Stats::new();
    inner.set("hp", Value::Int(-7));
    let mut s = Stats::new();
    s.set("name", Value::String("orc".to_string()));
    s.set("speed", Value::Int(12));
    s.set("odds", Value::Float(250_000));
    s.set("art", Value::LongString("/\\".to_string()));
    s.set("list", Value::List(vec![Value::Int(1), Value::String("two".to_string())]));
    s.set("stats", Value::Box(inner));
    s
}

#[test]
fn new_store_is_empty() {
    let s = Stats::new();
    assert_eq!(s.len(), 0);
    assert!(!s.has_var("x"));
    assert!(s.get_var_names().is_empty());
}

#[test]
fn get_finds_what_was_set() {
    let s = sample();
    assert_eq!(s.get("speed").unwrap().as_int(), Ok(12));
    assert_eq!(s.get("odds").unwrap().as_flt(), Ok(250_000));
    assert_eq!(s.get("name").unwrap().as_string().unwrap(), "orc");
    assert_eq!(s.get("art").unwrap().as_longstring().unwrap(), "/\\");
    assert_eq!(s.get("list").unwrap().as_vec().unwrap().len(), 2);
    assert_eq!(s.get("stats").unwrap().as_box().unwrap().get_int("hp"), Ok(-7));
}

#[test]
fn get_of_a_missing_name_fails() {
    let s = sample();
    assert_eq!(s.get("nope").err(), Some(Error::MissingKey));
    assert_eq!(s.get_int("nope"), Err(Error::MissingKey));
    assert_eq!(s.get_box("nope").err(), Some(Error::MissingKey));
    assert_eq!(s.get_string("nope").err(), Some(Error::MissingKey));
    assert_eq!(s.get_list("nope").err(), Some(Error::MissingKey));
}

#[test]
fn a_value_of_another_kind_fails() {
    let s = sample();
    assert_eq!(s.get("name").unwrap().as_int(), Err(Error::TypeMismatch));
    assert_eq!(s.get("speed").unwrap().as_flt(), Err(Error::TypeMismatch));
    assert_eq!(s.get("speed").unwrap().as_string().err(), Some(Error::TypeMismatch));
    assert_eq!(s.get("name").unwrap().as_longstring().err(), Some(Error::TypeMismatch));
    assert_eq!(s.get("name").unwrap().as_vec().err(), Some(Error::TypeMismatch));
    assert_eq!(s.get("name").unwrap().as_box().err(), Some(Error::TypeMismatch));
    assert_eq!(s.get_int("name"), Err(Error::TypeMismatch));
    assert_eq!(s.get_int_or("name", 3), Err(Error::TypeMismatch));
    assert_eq!(s.get_flt_or("name", 3), Err(Error::TypeMismatch));
}

#[test]
fn defaults_stand_in_for_missing_names_only() {
    let s = sample();
    let fallback = Value::Int(99);
    assert_eq!(s.get_or_else("nope", &fallback).as_int(), Ok(99));
    assert_eq!(s.get_or_else("speed", &fallback).as_int(), Ok(12));
    assert_eq!(s.get_int_or("nope", 5), Ok(5));
    assert_eq!(s.get_int_or("speed", 5), Ok(12));
    assert_eq!(s.get_flt_or("nope", 5), Ok(5));
    assert_eq!(s.get_flt_or("odds", 5), Ok(250_000));
}

#[test]
fn set_replaces_in_place_and_appends_new_names() {
    let mut s = sample();
    s.set("speed", Value::Int(1));
    s.set("zeta", Value::Int(2));
    assert_eq!(s.get_int("speed"), Ok(1));
    assert_eq!(
        s.get_var_names(),
        vec!["name", "speed", "odds", "art", "list", "stats", "zeta"]
    );
    assert_eq!(s.name_at(1), "speed");
    assert_eq!(s.value_at(6).as_int(), Ok(2));
}

#[test]
fn remove_takes_one_entry_out() {
    let mut s = sample();
    s.remove("odds");
    s.remove("never there");
    assert!(!s.has_var("odds"));
    assert_eq!(s.get_var_names(), vec!["name", "speed", "art", "list", "stats"]);
}

#[test]
fn clone_is_deep() {
    let s = sample();
    let mut copy = s.clone();
    copy.set("speed", Value::Int(0));
    assert_eq!(s.get_int("speed"), Ok(12));
    assert_eq!(copy.get_int("speed"), Ok(0));
    assert_eq!(copy.get_box("stats").unwrap().get_int("hp"), Ok(-7));
    assert_eq!(s.string(), sample().string());
}

#[test]
fn string_renders_every_kind() {
    assert_eq!(
        String::from_utf8(sample().string()).unwrap(),
        "name: orc\nspeed: 12\nodds: 250000e-6\nart: /\\\nlist: [1,two,]\nstats: {hp: -7\n}\n"
    );
    assert_eq!(Stats::new().string(), Vec::<u8>::new());
}

#[test]
fn string_renders_the_ends_of_the_number_range() {
    let mut s = Stats::new();
    s.set("low", Value::Int(i64::MIN));
    s.set("high", Value::Int(i64::MAX));
    s.set("zero", Value::Int(0));
    assert_eq!(
        String::from_utf8(s.string()).unwrap(),
        "low: -9223372036854775808\nhigh: 9223372036854775807\nzero: 0\n"
    );
}
