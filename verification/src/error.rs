//! The failures that the engine reports to a player or to its caller.

use crate::text::{push_signed, push_str, signed_decimal, utf8};
use vstd::prelude::*;

verus! {

/// Why an operation was refused.
#[derive(Clone, Copy, Debug, PartialEq, Eq, Structural)]
pub enum Error {
    /// An attribute was looked up under a name that the store does not hold.
    MissingKey,
    /// An attribute holds a value of another kind than the one asked for.
    TypeMismatch,
    /// No player is registered under the given id.
    NoSuchPlayer,
    /// No live entity stands on the tile.
    NoSuchEntity,
    /// A tile definition names an entity type that has no constructor.
    UnknownEntityType,
    /// A command was given the wrong number or kind of parameters.
    BadParameters,
    /// A trade was given a number of parameters other than none or two.
    TradeArity,
    /// A trade was given something other than an item and a count.
    TradeParameters,
    /// The lists of a drop table are not of one length.
    BadTable,
    /// Fewer than one item was offered in a trade.
    TradeTooSmall,
    /// The trader does not take the offered item.
    TradeNotOffered,
    /// The player offered more of an item than the inventory holds; the
    /// payload is the count that it does hold.
    Insufficient(i64),
    /// A roll was asked for with bounds or odds that admit no outcome.
    BadOdds,
    /// A fight cannot end, because the player's speed is not positive.
    NoProgress,
    /// A count or an amount left the range of a 64-bit integer.
    Overflow,
    /// Every one of the 256 player ids is taken.
    ServerFull,
    /// The view holds more players than one count byte can tell.
    ViewTooCrowded,
}

impl Error {
    /// What a player reads about the failure.
    pub open spec fn message(self) -> Seq<u8> {
        match self {
            Error::MissingKey => utf8("an attribute is missing"@),
            Error::TypeMismatch => utf8("an attribute is of the wrong kind"@),
            Error::NoSuchPlayer => utf8("player id is invalid"@),
            Error::NoSuchEntity => utf8("no spawned entity at location!"@),
            Error::UnknownEntityType => utf8("could not find create entity function"@),
            Error::BadParameters => utf8("the parameters do not fit the command"@),
            Error::TradeArity => utf8("expected 0 or 2 parameters"@),
            Error::TradeParameters => utf8(
                "expected item to trade, and then number to trade of that item."@,
            ),
            Error::BadTable => utf8("invalid input for get_items"@),
            Error::TradeTooSmall => utf8("you can't trade less than 1 item!"@),
            Error::TradeNotOffered => utf8("that trade is not offered!"@),
            Error::Insufficient(have) => utf8("you only have "@) + signed_decimal(have as int)
                + utf8(" of that item"@),
            Error::BadOdds => utf8("can't roll with these odds"@),
            Error::NoProgress => utf8("this fight cannot end"@),
            Error::Overflow => utf8("a number is out of range"@),
            Error::ServerFull => utf8("There are already 256 players in the game!"@),
            Error::ViewTooCrowded => utf8("too many players are in view"@),
        }
    }

    /// Writes what a player reads about the failure.
    pub fn to_bytes(&self) -> (text: Vec<u8>)
        ensures
            text@ == self.message(),
    {
        let mut text: Vec<u8> = Vec::new();
        match self {
            Error::MissingKey => push_str(&mut text, "an attribute is missing"),
            Error::TypeMismatch => push_str(&mut text, "an attribute is of the wrong kind"),
            Error::NoSuchPlayer => push_str(&mut text, "player id is invalid"),
            Error::NoSuchEntity => push_str(&mut text, "no spawned entity at location!"),
            Error::UnknownEntityType => push_str(
                &mut text,
                "could not find create entity function",
            ),
            Error::BadParameters => push_str(&mut text, "the parameters do not fit the command"),
            Error::TradeArity => push_str(&mut text, "expected 0 or 2 parameters"),
            Error::TradeParameters => push_str(
                &mut text,
                "expected item to trade, and then number to trade of that item.",
            ),
            Error::BadTable => push_str(&mut text, "invalid input for get_items"),
            Error::TradeTooSmall => push_str(&mut text, "you can't trade less than 1 item!"),
            Error::TradeNotOffered => push_str(&mut text, "that trade is not offered!"),
            Error::Insufficient(have) => {
                push_str(&mut text, "you only have ");
                push_signed(&mut text, *have);
                push_str(&mut text, " of that item");
            },
            Error::BadOdds => push_str(&mut text, "can't roll with these odds"),
            Error::NoProgress => push_str(&mut text, "this fight cannot end"),
            Error::Overflow => push_str(&mut text, "a number is out of range"),
            Error::ServerFull => push_str(
                &mut text,
                "There are already 256 players in the game!",
            ),
            Error::ViewTooCrowded => push_str(&mut text, "too many players are in view"),
        }
        assert(text@ =~= self.message());
        text
    }
}

} // verus!
