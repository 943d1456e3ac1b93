//! What a command carries: its parameters, and the handler that a keyword
//! resolves to on an entity of a given type.

use crate::error::Error;
use crate::text::str_eq;
use vstd::prelude::*;

verus! {

/// One parameter of a command.
#[derive(Debug)]
pub enum Param {
    /// A whole number.
    Int(i64),
    /// A fraction, held in millionths.
    Flt(i64),
    /// A piece of text.
    String(String),
    /// A truth value.
    Bool(bool),
}

/// What a parameter stands for.
pub enum ParamModel {
    Int(i64),
    Flt(i64),
    String(Seq<char>),
    Bool(bool),
}

impl View for Param {
    type V = ParamModel;

    open spec fn view(&self) -> ParamModel {
        match self {
            Param::Int(i) => ParamModel::Int(*i),
            Param::Flt(f) => ParamModel::Flt(*f),
            Param::String(s) => ParamModel::String(s@),
            Param::Bool(b) => ParamModel::Bool(*b),
        }
    }
}

impl Clone for Param {
    /// A copy that stands for the same parameter.
    fn clone(&self) -> (copy: Param)
        ensures
            copy@ == self@,
    {
        match self {
            Param::Int(i) => Param::Int(*i),
            Param::Flt(f) => Param::Flt(*f),
            Param::String(s) => Param::String(s.clone()),
            Param::Bool(b) => Param::Bool(*b),
        }
    }
}

/// What a list of parameters stands for.
pub open spec fn params_model(params: Seq<Param>) -> Seq<ParamModel> {
    Seq::new(params.len(), |i: int| params[i]@)
}

/// The number in a parameter.
pub open spec fn param_int(p: ParamModel) -> Result<i64, Error> {
    match p {
        ParamModel::Int(i) => Ok(i),
        _ => Err(Error::TypeMismatch),
    }
}

/// The text in a parameter.
pub open spec fn param_string(p: ParamModel) -> Result<Seq<char>, Error> {
    match p {
        ParamModel::String(s) => Ok(s),
        _ => Err(Error::TypeMismatch),
    }
}

impl Param {
    /// The number in an `Int`.
    pub fn as_int(&self) -> (r: Result<i64, Error>)
        ensures
            r == param_int(self@),
    {
        match self {
            Param::Int(i) => Ok(*i),
            _ => Err(Error::TypeMismatch),
        }
    }

    /// The text in a `String`.
    pub fn as_string(&self) -> (r: Result<&String, Error>)
        ensures
            match r {
                Ok(s) => param_string(self@) == Ok::<Seq<char>, Error>(s@),
                Err(e) => param_string(self@) == Err::<Seq<char>, Error>(e),
            },
    {
        match self {
            Param::String(s) => Ok(s),
            _ => Err(Error::TypeMismatch),
        }
    }
}

/// A handler of the live entities.
#[derive(Clone, Copy, Debug, PartialEq, Eq, Structural)]
pub enum Action {
    /// Open the chest on the player's tile.
    ChestInteract,
    /// Strike the entity on the player's tile.
    Dmg,
    /// Meet the mob on the player's tile.
    InteractMob,
    /// Let the mob on the player's tile strike.
    Attack,
    /// Trade with the mob on the player's tile.
    Trade,
}

/// The handler that the keyword `keyword` resolves to on an entity of the
/// type `tag`: a chest knows `interact`; a mob knows `dmg`, `interact` and
/// `attack`; a trading mob knows those and `trade`.
pub open spec fn action_of(tag: Seq<char>, keyword: Seq<char>) -> Option<Action> {
    if tag == "chest"@ {
        if keyword == "interact"@ {
            Some(Action::ChestInteract)
        } else {
            None
        }
    } else if tag == "mob"@ || tag == "trading_mob"@ {
        if keyword == "dmg"@ {
            Some(Action::Dmg)
        } else if keyword == "interact"@ {
            Some(Action::InteractMob)
        } else if keyword == "attack"@ {
            Some(Action::Attack)
        } else if keyword == "trade"@ && tag == "trading_mob"@ {
            Some(Action::Trade)
        } else {
            None
        }
    } else {
        None
    }
}

/// Looks up the handler of `keyword` for an entity of the type `tag`.
pub fn resolve_action(tag: &str, keyword: &str) -> (action: Option<Action>)
    ensures
        action == action_of(tag@, keyword@),
{
    if str_eq(tag, "chest") {
        if str_eq(keyword, "interact") {
            Some(Action::ChestInteract)
        } else {
            None
        }
    } else {
        let trader = str_eq(tag, "trading_mob");
        if str_eq(tag, "mob") || trader {
            if str_eq(keyword, "dmg") {
                Some(Action::Dmg)
            } else if str_eq(keyword, "interact") {
                Some(Action::InteractMob)
            } else if str_eq(keyword, "attack") {
                Some(Action::Attack)
            } else if str_eq(keyword, "trade") && trader {
                Some(Action::Trade)
            } else {
                None
            }
        } else {
            None
        }
    }
}

/// Whether `keyword` is a command of the registry: a keyword that an
/// entity of some type knows.
pub open spec fn is_command(keyword: Seq<char>) -> bool {
    keyword == "interact"@ || keyword == "dmg"@ || keyword == "attack"@ || keyword == "trade"@
}

/// Every command is known to a trading mob, and what no type knows is no
/// command.
pub proof fn lemma_commands_are_actions(tag: Seq<char>, keyword: Seq<char>)
    ensures
        is_command(keyword) <==> action_of("trading_mob"@, keyword) is Some,
        action_of(tag, keyword) is Some ==> is_command(keyword),
{
    reveal_strlit("trading_mob");
    reveal_strlit("chest");
    reveal_strlit("mob");
    assert("trading_mob"@.len() == 11);
    assert("chest"@.len() == 5);
    assert("mob"@.len() == 3);
}

/// Whether the registry knows the keyword `keyword`.
pub fn known_keyword(keyword: &str) -> (known: bool)
    ensures
        known == is_command(keyword@),
{
    str_eq(keyword, "interact") || str_eq(keyword, "dmg") || str_eq(keyword, "attack") || str_eq(
        keyword,
        "trade",
    )
}

} // verus!
