use mirae_server::error::Error;

fn message(e: Error) -> String {
    String::from_utf8(e.to_bytes()).unwrap()
}

#[test]
fn every_error_has_its_message() {
    assert_eq!(message(Error::MissingKey), "an attribute is missing");
    assert_eq!(message(Error::TypeMismatch), "an attribute is of the wrong kind");
    assert_eq!(message(Error::NoSuchPlayer), "player id is invalid");
    assert_eq!(message(Error::NoSuchEntity), "no spawned entity at location!");
    assert_eq!(message(Error::UnknownEntityType), "could not find create entity function");
    assert_eq!(message(Error::BadParameters), "the parameters do not fit the command");
    assert_eq!(message(Error::TradeArity), "expected 0 or 2 parameters");
    assert_eq!(
        message(Error::TradeParameters),
        "expected item to trade, and then number to trade of that item."
    );
    assert_eq!(message(Error::BadTable), "invalid input for get_items");
    assert_eq!(message(Error::TradeTooSmall), "you can't trade less than 1 item!");
    assert_eq!(message(Error::TradeNotOffered), "that trade is not offered!");
    assert_eq!(message(Error::BadOdds), "can't roll with these odds");
    assert_eq!(message(Error::NoProgress), "this fight cannot end");
    assert_eq!(message(Error::Overflow), "a number is out of range");
    assert_eq!(message(Error::ServerFull), "There are already 256 players in the game!");
    assert_eq!(message(Error::ViewTooCrowded), "too many players are in view");
}

#[test]
fn the_insufficient_message_tells_the_count() {
    assert_eq!(message(Error::Insufficient(2)), "you only have 2 of that item");
    assert_eq!(message(Error::Insufficient(0)), "you only have 0 of that item");
    assert_eq!(message(Error::Insufficient(-3)), "you only have -3 of that item");
}
