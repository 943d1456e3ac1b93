//! The packet that a new connection gets first: the display tables of the
//! world's blocks and entity kinds, as a JSON document.

use crate::error::Error;
use crate::json::{
    decimal_text, json_bytes, json_members, json_new, json_object_text, json_put_number,
    json_put_object, json_put_string, json_string_text, number_string,
};
use crate::playerout::{Packet, PacketModel, PacketType};
use crate::stats::{model_has, model_int, model_string, StatsModel};
use crate::text::decimal;
use crate::world::{World, WorldModel};
use vstd::prelude::*;

verus! {

/// The low sixteen bits of a number.
pub open spec fn low16(d: i64) -> nat {
    (d % 65536) as nat
}

/// The display codes of the first `n` blocks: for each block id, as a
/// decimal numeral, the low sixteen bits of the block's `display`.
pub open spec fn block_displays(blocks: Seq<StatsModel>, n: nat) -> Result<
    Map<Seq<char>, Seq<u8>>,
    Error,
>
    decreases n,
{
    if n == 0 || n > blocks.len() {
        Ok(Map::empty())
    } else {
        match block_displays(blocks, (n - 1) as nat) {
            Err(e) => Err(e),
            Ok(m) => match model_int(blocks[n - 1], "display"@) {
                Err(e) => Err(e),
                Ok(d) => Ok(m.insert(decimal_text((n - 1) as nat), decimal(low16(d)))),
            },
        }
    }
}

/// The display codes of the first `n` entity kinds: for each entity id
/// whose definition has a `display`, that string.
pub open spec fn entity_displays(kinds: Seq<(Seq<char>, StatsModel)>, n: nat) -> Result<
    Map<Seq<char>, Seq<u8>>,
    Error,
>
    decreases n,
{
    if n == 0 || n > kinds.len() {
        Ok(Map::empty())
    } else {
        match entity_displays(kinds, (n - 1) as nat) {
            Err(e) => Err(e),
            Ok(m) => if model_has(kinds[n - 1].1, "display"@) {
                match model_string(kinds[n - 1].1, "display"@) {
                    Err(e) => Err(e),
                    Ok(s) => Ok(m.insert(decimal_text((n - 1) as nat), json_string_text(s))),
                }
            } else {
                Ok(m)
            },
        }
    }
}

/// The JSON document that describes the display tables of a world: an
/// object with the members `default_entity`, `block_display` and
/// `entity_display`.
pub open spec fn init_document(w: WorldModel) -> Result<Seq<u8>, Error> {
    match block_displays(w.blocks, w.blocks.len()) {
        Err(e) => Err(e),
        Ok(blocks) => match entity_displays(w.kinds, w.kinds.len()) {
            Err(e) => Err(e),
            Ok(entities) => Ok(
                json_object_text(
                    Map::<Seq<char>, Seq<u8>>::empty().insert(
                        "default_entity"@,
                        json_string_text("??"@),
                    ).insert("block_display"@, json_object_text(blocks)).insert(
                        "entity_display"@,
                        json_object_text(entities),
                    ),
                ),
            ),
        },
    }
}

/// Once the display codes of the first `n` blocks have failed, those of
/// more blocks fail in the same way.
pub proof fn lemma_block_displays_fails(blocks: Seq<StatsModel>, n: nat, more: nat)
    requires
        n <= more <= blocks.len(),
        block_displays(blocks, n) is Err,
    ensures
        block_displays(blocks, more) == block_displays(blocks, n),
    decreases more,
{
    if n < more {
        lemma_block_displays_fails(blocks, n, (more - 1) as nat);
    }
}

/// Once the display codes of the first `n` entity kinds have failed,
/// those of more kinds fail in the same way.
pub proof fn lemma_entity_displays_fails(kinds: Seq<(Seq<char>, StatsModel)>, n: nat, more: nat)
    requires
        n <= more <= kinds.len(),
        entity_displays(kinds, n) is Err,
    ensures
        entity_displays(kinds, more) == entity_displays(kinds, n),
    decreases more,
{
    if n < more {
        lemma_entity_displays_fails(kinds, n, (more - 1) as nat);
    }
}

/// The low sixteen bits of a signed number.
fn low16_of(d: i64) -> (r: u16)
    ensures
        r == low16(d),
{
    if d >= 0 {
        (d % 65536) as u16
    } else {
        let k: i64 = -(d + 1);
        (65535 - (k % 65536)) as u16
    }
}

/// The packet that tells a new connection how blocks and entities are
/// displayed. Every block must have a number `display`; an entity kind
/// may have a string `display`.
#[verifier::loop_isolation(false)]
pub fn get_init(world: &World) -> (r: Result<Packet, Error>)
    ensures
        match init_document(world@) {
            Ok(document) => r is Ok && r->Ok_0@ == (PacketModel {
                kind: PacketType::Init,
                content: document,
            }),
            Err(e) => r is Err && r->Err_0 == e,
        },
{
    let mut blocks = json_new();
    let mut i: usize = 0;
    while i < world.max_block_id()
        invariant
            i <= world@.blocks.len(),
            block_displays(world@.blocks, i as nat) == Ok::<Map<Seq<char>, Seq<u8>>, Error>(
                json_members(blocks),
            ),
        decreases world@.blocks.len() - i,
    {
        let display = match world.get_block_by_id(i).get_int("display") {
            Ok(d) => d,
            Err(e) => {
                proof {
                    lemma_block_displays_fails(
                        world@.blocks,
                        (i + 1) as nat,
                        world@.blocks.len(),
                    );
                }
                return Err(e);
            },
        };
        json_put_number(&mut blocks, number_string(i), low16_of(display));
        i = i + 1;
    }
    let mut entities = json_new();
    let mut k: usize = 0;
    while k < world.max_entity_id()
        invariant
            k <= world@.kinds.len(),
            entity_displays(world@.kinds, k as nat) == Ok::<Map<Seq<char>, Seq<u8>>, Error>(
                json_members(entities),
            ),
        decreases world@.kinds.len() - k,
    {
        let properties = world.get_entity_properties_by_id(k);
        if properties.has_var("display") {
            let display = match properties.get_string("display") {
                Ok(s) => s.clone(),
                Err(e) => {
                    proof {
                        lemma_entity_displays_fails(
                            world@.kinds,
                            (k + 1) as nat,
                            world@.kinds.len(),
                        );
                    }
                    return Err(e);
                },
            };
            json_put_string(&mut entities, number_string(k), display);
        }
        k = k + 1;
    }
    let mut document = json_new();
    json_put_string(&mut document, "default_entity".to_owned(), "??".to_owned());
    json_put_object(&mut document, "block_display".to_owned(), blocks);
    json_put_object(&mut document, "entity_display".to_owned(), entities);
    let content = json_bytes(document);
    Ok(Packet::new(PacketType::Init, content))
}

} // verus!
