use mirae_server::action::Param;
use mirae_server::connection::{split_words, Command, Reader};

fn command(keyword: &str, action: u32) -> Command<u32> {
    Command { keyword: keyword.to_string(), params: vec![Param::Int(1)], action }
}

#[test]
fn a_parsed_line_is_sent_and_remembered() {
    let mut reader: Reader<u32> = Reader::new();
    assert!(reader.command().is_none());
    assert!(reader.take_line("look", Some(command("look", 1))));
    assert_eq!(reader.command().unwrap().keyword, "look");
    assert_eq!(reader.command().unwrap().action, 1);
}

#[test]
fn an_empty_line_repeats_the_last_command() {
    let mut reader: Reader<u32> = Reader::new();
    assert!(reader.take_line("go north", Some(command("go", 2))));
    assert!(reader.take_line("", None));
    assert_eq!(reader.command().unwrap().keyword, "go");
    assert!(reader.take_line("  \t ", None));
    assert_eq!(reader.command().unwrap().action, 2);
}

#[test]
fn an_empty_line_does_nothing_before_any_command() {
    let mut reader: Reader<u32> = Reader::new();
    assert!(!reader.take_line("", None));
    assert!(!reader.take_line(" \n", Some(command("ignored", 3))));
    assert!(reader.command().is_none());
}

#[test]
fn a_line_that_does_not_parse_sends_nothing_and_keeps_the_last() {
    let mut reader: Reader<u32> = Reader::new();
    assert!(reader.take_line("look", Some(command("look", 1))));
    assert!(!reader.take_line("gibberish", None));
    assert_eq!(reader.command().unwrap().keyword, "look");
    assert!(reader.take_line("", None));
    assert_eq!(reader.command().unwrap().keyword, "look");
}

#[test]
fn a_new_command_replaces_the_last() {
    let mut reader: Reader<u32> = Reader::new();
    assert!(reader.take_line("look", Some(command("look", 1))));
    assert!(reader.take_line(" dig ", Some(command("dig", 4))));
    assert!(reader.take_line("", None));
    assert_eq!(reader.command().unwrap().keyword, "dig");
}

fn words(line: &str) -> Vec<String> {
    split_words(&line.as_bytes().to_vec())
        .into_iter()
        .map(|w| String::from_utf8(w).unwrap())
        .collect()
}

#[test]
fn split_words_finds_keyword_and_parameters() {
    assert_eq!(words("trade apple 3"), vec!["trade", "apple", "3"]);
    assert_eq!(words("look"), vec!["look"]);
    assert_eq!(words("  dmg\t10   0 \r\n"), vec!["dmg", "10", "0"]);
    assert_eq!(words("a b"), vec!["a", "b"]);
    assert_eq!(words("é →x"), vec!["é", "→x"]);
}

#[test]
fn split_words_of_a_line_without_words() {
    assert!(words("").is_empty());
    assert!(words(" ").is_empty());
    assert!(words(" \t\r\n  ").is_empty());
}
