//! The authoritative loop's decisions: who may connect, what a disconnect
//! leaves behind, and when a turn is taken away.

use crate::action::{action_of, params_model, resolve_action, Action, Param, ParamModel};
use crate::combat::{attack, interact_mob, possible_attack, possible_interact};
use crate::entities::{
    get_entity, has_entity, possible_entity, spawn, tile_key, EntityModel, SpawnedEntities,
    Spawnable,
};
use crate::error::Error;
use crate::handlers::{chest_interact, chest_opened, dmg, possible_dmg, trade, trade_outcome};
use crate::init::{get_init, init_document};
use crate::player::{data_with_id, table_model, Player, PlayerModel};
use crate::playerout::{joined, text_packet, Packet, PacketModel, PacketType, PlayerOut};
use crate::scene::{
    entity_at, player_at, position_of, same_scene, scene_of, settles, with_entity, with_player,
    Scene,
};
use crate::text::utf8;
use crate::world::{kind_at, waiting_definition, waiting_name, World, WorldModel};
use vstd::prelude::*;

verus! {

/// How long a turn may last, in milliseconds.
pub const MAX_TURN_TIME_MILLIS: u64 = 10_000;

/// How many players a server takes: one for each id.
pub const MAX_PLAYERS: usize = 256;

/// Packets on their way to one player.
pub struct Delivery {
    /// The id of the player.
    pub to: u8,
    /// The packets.
    pub out: PlayerOut,
}

/// What a delivery stands for.
pub struct DeliveryModel {
    pub to: u8,
    pub out: Seq<PacketModel>,
}

impl View for Delivery {
    type V = DeliveryModel;

    open spec fn view(&self) -> DeliveryModel {
        DeliveryModel { to: self.to, out: self.out@ }
    }
}

/// What a list of deliveries stands for.
pub open spec fn deliveries_model(deliveries: Seq<Delivery>) -> Seq<DeliveryModel> {
    Seq::new(deliveries.len(), |i: int| deliveries[i]@)
}

/// A delivery of one piece of text.
pub open spec fn notice(to: u8, text: Seq<char>) -> DeliveryModel {
    DeliveryModel { to, out: seq![text_packet(utf8(text))] }
}

/// The number of slots that have an id.
pub open spec fn id_slots(t: Seq<Option<PlayerModel>>) -> int {
    if t.len() < MAX_PLAYERS {
        t.len() as int
    } else {
        MAX_PLAYERS as int
    }
}

/// Whether `id` is the first free id of the table: its slot is empty, and
/// no slot before it is.
pub open spec fn first_free(t: Seq<Option<PlayerModel>>, id: int) -> bool {
    &&& 0 <= id < id_slots(t)
    &&& t[id] is None
    &&& forall|j: int| 0 <= j < id ==> (#[trigger] t[j]) is Some
}

/// Whether every id of the table is taken.
pub open spec fn full(t: Seq<Option<PlayerModel>>) -> bool {
    forall|j: int| 0 <= j < id_slots(t) ==> (#[trigger] t[j]) is Some
}

/// The first free id of the player table, if one is free.
pub fn get_first_availible_id(players: &Vec<Option<Player>>) -> (id: Option<u8>)
    ensures
        match id {
            Some(i) => first_free(table_model(players@), i as int),
            None => full(table_model(players@)),
        },
{
    let mut i: usize = 0;
    while i < players.len() && i < MAX_PLAYERS
        invariant
            i <= players@.len(),
            i <= MAX_PLAYERS,
            forall|j: int| 0 <= j < i ==> (#[trigger] table_model(players@)[j]) is Some,
        decreases players@.len() - i,
    {
        if players[i].is_none() {
            return Some(i as u8);
        }
        i = i + 1;
    }
    None
}

/// The player that a connection with the id `id` starts as: on the
/// world's spawn tile, with the world's default attributes, in no duel.
pub open spec fn new_player(w: WorldModel, id: u8) -> PlayerModel {
    PlayerModel {
        x: w.spawn_x,
        y: w.spawn_y,
        data: data_with_id(w.player_defaults, id),
        turn: false,
        opponent: None,
        last_turn_time: 0,
        interact: false,
    }
}

/// A queue that holds one error packet with the message of `e`.
pub open spec fn refusal(e: Error) -> Seq<PacketModel> {
    seq![PacketModel { kind: PacketType::Error, content: e.message() }]
}

/// Queues an error packet with the message of `e`.
pub fn refuse(out: &mut PlayerOut, e: Error)
    ensures
        final(out)@ == old(out)@ + refusal(e),
{
    out.add_pkt(Packet::new(PacketType::Error, e.to_bytes()));
    assert(out@ =~= old(out)@ + refusal(e));
}

/// Takes a new connection in: it gets the first free id, a player of
/// that id enters the world, and the reply is the packet with the
/// display tables. Where every id is taken, or the display tables cannot
/// be written, the reply is an error packet without an id, and the
/// player table is left as it was.
pub fn connect(players: &mut Vec<Option<Player>>, world: &World) -> (reply: (PlayerOut, Option<u8>))
    ensures
        match reply.1 {
            Some(id) => {
                &&& first_free(table_model(old(players)@), id as int)
                &&& init_document(world@) is Ok
                &&& reply.0@ == seq![
                    PacketModel {
                        kind: PacketType::Init,
                        content: init_document(world@)->Ok_0,
                    },
                ]
                &&& table_model(final(players)@) == table_model(old(players)@).update(
                    id as int,
                    Some(new_player(world@, id)),
                )
            },
            None => {
                &&& table_model(final(players)@) == table_model(old(players)@)
                &&& if full(table_model(old(players)@)) {
                    reply.0@ == refusal(Error::ServerFull)
                } else {
                    init_document(world@) is Err && reply.0@ == refusal(
                        init_document(world@)->Err_0,
                    )
                }
            },
        },
{
    let mut out = PlayerOut::new();
    let id = match get_first_availible_id(players) {
        Some(id) => id,
        None => {
            refuse(&mut out, Error::ServerFull);
            return (out, None);
        },
    };
    assert(!full(table_model(players@))) by {
        assert(table_model(players@)[id as int] is None);
    }
    let init = match get_init(world) {
        Ok(init) => init,
        Err(e) => {
            refuse(&mut out, e);
            return (out, None);
        },
    };
    let (x, y) = world.spawn_point();
    let player = Player::from(x, y, id, world.player_defaults().clone());
    players.set(id as usize, Some(player));
    out.add_pkt(init);
    assert(table_model(players@) =~= table_model(old(players)@).update(
        id as int,
        Some(new_player(world@, id)),
    ));
    (out, Some(id))
}

/// What the disconnect of the player `id` leaves of the table: the
/// player is gone, and its opponent, if it has one, is released.
pub open spec fn disconnected(t: Seq<Option<PlayerModel>>, id: u8) -> Seq<Option<PlayerModel>> {
    match player_at(t, id) {
        Err(_) => t,
        Ok(p) => match p.opponent {
            Some(o) => if o < t.len() && t[o as int] is Some {
                t.update(o as int, Some(PlayerModel { opponent: None, ..t[o as int]->0 })).update(
                    id as int,
                    None,
                )
            } else {
                t.update(id as int, None)
            },
            None => t.update(id as int, None),
        },
    }
}

/// Whom the disconnect of the player `id` is told to: its opponent.
pub open spec fn bereaved(t: Seq<Option<PlayerModel>>, id: u8) -> Option<DeliveryModel> {
    match player_at(t, id) {
        Err(_) => None,
        Ok(p) => match p.opponent {
            Some(o) => if o < t.len() && t[o as int] is Some {
                Some(notice(o, "Your opponent has disconnected!"@))
            } else {
                None
            },
            None => None,
        },
    }
}

/// Lets the player `id` go: the player's record is dropped, and an
/// opponent is released from the duel and told so.
pub fn disconnect(players: &mut Vec<Option<Player>>, id: u8) -> (told: Option<Delivery>)
    ensures
        table_model(final(players)@) == disconnected(table_model(old(players)@), id),
        match told {
            Some(d) => bereaved(table_model(old(players)@), id) == Some(d@),
            None => bereaved(table_model(old(players)@), id) is None,
        },
{
    let slot = id as usize;
    if slot >= players.len() {
        assert(table_model(players@) =~= disconnected(table_model(old(players)@), id));
        return None;
    }
    let opponent = match &players[slot] {
        Some(p) => p.opponent(),
        None => {
            assert(table_model(players@) =~= disconnected(table_model(old(players)@), id));
            return None;
        },
    };
    let mut told: Option<Delivery> = None;
    match opponent {
        Some(o) => {
            if (o as usize) < players.len() {
                match &mut players[o as usize] {
                    Some(other) => {
                        other.set_opponent(None);
                        let mut out = PlayerOut::new();
                        out.append("Your opponent has disconnected!");
                        told = Some(Delivery { to: o, out });
                    },
                    None => {},
                }
            }
        },
        None => {},
    }
    players.set(slot, None);
    assert(table_model(players@) =~= disconnected(table_model(old(players)@), id));
    told
}

/// Drops the record of the player `id`, whose connection is gone.
pub fn drop_player(players: &mut Vec<Option<Player>>, id: u8)
    ensures
        table_model(final(players)@) == (if id < old(players)@.len() {
            table_model(old(players)@).update(id as int, None)
        } else {
            table_model(old(players)@)
        }),
{
    if (id as usize) < players.len() {
        players.set(id as usize, None);
        assert(table_model(players@) =~= table_model(old(players)@).update(id as int, None));
    } else {
        assert(table_model(players@) =~= table_model(old(players)@));
    }
}

/// Whether the turn of the player `p` has run out at the time `now`: it is
/// the player's turn in a duel, and it began more than
/// [`MAX_TURN_TIME_MILLIS`] ago.
pub open spec fn expired(p: PlayerModel, now: u64) -> bool {
    p.turn && p.opponent is Some && now - p.last_turn_time > MAX_TURN_TIME_MILLIS
}

/// Whether the slot `i` holds a player whose turn has run out.
pub open spec fn slot_expired(t: Seq<Option<PlayerModel>>, now: u64, i: int) -> bool {
    0 <= i < id_slots(t) && t[i] is Some && expired(t[i]->0, now)
}

/// The opponents of the players in the first `n` slots whose turn has
/// run out, in slot order.
pub open spec fn heirs(t: Seq<Option<PlayerModel>>, now: u64, n: nat) -> Seq<u8>
    decreases n,
{
    if n == 0 || n > id_slots(t) {
        Seq::empty()
    } else if slot_expired(t, now, n - 1) {
        heirs(t, now, (n - 1) as nat).push(t[n - 1]->0.opponent->0)
    } else {
        heirs(t, now, (n - 1) as nat)
    }
}

/// What the sweep leaves of the slot `k`: a player whose turn has run
/// out loses it, and the opponent of such a player gets the turn, which
/// begins at `now`.
pub open spec fn swept_slot(t: Seq<Option<PlayerModel>>, now: u64, k: int) -> Option<
    PlayerModel,
> {
    match t[k] {
        None => None,
        Some(p) => {
            let stopped = if slot_expired(t, now, k) {
                PlayerModel { turn: false, ..p }
            } else {
                p
            };
            if k < MAX_PLAYERS && heirs(t, now, id_slots(t) as nat).contains(k as u8) {
                Some(PlayerModel { turn: true, last_turn_time: now, ..stopped })
            } else {
                Some(stopped)
            }
        },
    }
}

/// What the sweep leaves of the table.
pub open spec fn swept(t: Seq<Option<PlayerModel>>, now: u64) -> Seq<Option<PlayerModel>> {
    Seq::new(t.len(), |k: int| swept_slot(t, now, k))
}

/// What the players in the first `n` slots are told whose turn has run out.
pub open spec fn slow_notices(t: Seq<Option<PlayerModel>>, now: u64, n: nat) -> Seq<
    DeliveryModel,
>
    decreases n,
{
    if n == 0 || n > id_slots(t) {
        Seq::empty()
    } else if slot_expired(t, now, n - 1) {
        slow_notices(t, now, (n - 1) as nat).push(
            notice((n - 1) as u8, "You're TOO SLOW!!! Your turn is up!\n"@),
        )
    } else {
        slow_notices(t, now, (n - 1) as nat)
    }
}

/// What the first `n` of the players `heirs` are told who get the turn;
/// one who is not in the table is told nothing.
pub open spec fn turn_notices(t: Seq<Option<PlayerModel>>, heirs: Seq<u8>, n: nat) -> Seq<
    DeliveryModel,
>
    decreases n,
{
    if n == 0 || n > heirs.len() {
        Seq::empty()
    } else if heirs[n - 1] < t.len() && t[heirs[n - 1] as int] is Some {
        turn_notices(t, heirs, (n - 1) as nat).push(
            notice(heirs[n - 1], "Your opponent was TOO SLOW!!! It's your turn now!\n"@),
        )
    } else {
        turn_notices(t, heirs, (n - 1) as nat)
    }
}

/// What the sweep tells the players: first those whose turn has run out,
/// then those who get the turn.
pub open spec fn sweep_notices(t: Seq<Option<PlayerModel>>, now: u64) -> Seq<DeliveryModel> {
    slow_notices(t, now, id_slots(t) as nat) + turn_notices(
        t,
        heirs(t, now, id_slots(t) as nat),
        heirs(t, now, id_slots(t) as nat).len(),
    )
}

/// The opponent of a player whose turn has run out is among the heirs.
pub proof fn lemma_heirs_hold(t: Seq<Option<PlayerModel>>, now: u64, n: nat, i: int)
    requires
        slot_expired(t, now, i),
        i < n <= id_slots(t),
    ensures
        heirs(t, now, n).contains(t[i]->0.opponent->0),
    decreases n,
{
    if i == n - 1 {
        assert(heirs(t, now, n).last() == t[i]->0.opponent->0);
    } else {
        lemma_heirs_hold(t, now, (n - 1) as nat, i);
        let earlier = heirs(t, now, (n - 1) as nat);
        let j = choose|j: int| 0 <= j < earlier.len() && earlier[j] == t[i]->0.opponent->0;
        assert(heirs(t, now, n)[j] == t[i]->0.opponent->0);
    }
}

/// Every heir is the opponent of a player whose turn has run out.
pub proof fn lemma_heirs_come_from(t: Seq<Option<PlayerModel>>, now: u64, n: nat, o: u8)
    requires
        n <= id_slots(t),
        heirs(t, now, n).contains(o),
    ensures
        exists|i: int| #[trigger] slot_expired(t, now, i) && i < n && t[i]->0.opponent == Some(o),
    decreases n,
{
    if n > 0 {
        let earlier = heirs(t, now, (n - 1) as nat);
        if slot_expired(t, now, n - 1) && t[n - 1]->0.opponent == Some(o) {
        } else {
            let j = choose|j: int| 0 <= j < heirs(t, now, n).len() && heirs(t, now, n)[j] == o;
            assert(earlier[j] == o);
            lemma_heirs_come_from(t, now, (n - 1) as nat, o);
        }
    }
}

/// The turn timeout: once the turn of a player in a duel has lasted
/// longer than [`MAX_TURN_TIME_MILLIS`], the sweep hands it to the
/// opponent, whose turn begins at `now`; and the player has lost the turn
/// unless it is itself the opponent of a player whose turn has run out.
pub proof fn lemma_sweep_hands_over(t: Seq<Option<PlayerModel>>, now: u64, i: int, o: u8)
    requires
        slot_expired(t, now, i),
        t[i]->0.opponent == Some(o),
        o < t.len(),
        t[o as int] is Some,
    ensures
        swept(t, now)[o as int] is Some,
        swept(t, now)[o as int]->0.turn,
        swept(t, now)[o as int]->0.last_turn_time == now,
        (forall|j: int| slot_expired(t, now, j) ==> t[j]->0.opponent != Some(i as u8)) ==> !swept(
            t,
            now,
        )[i]->0.turn,
{
    lemma_heirs_hold(t, now, id_slots(t) as nat, i);
    if heirs(t, now, id_slots(t) as nat).contains(i as u8) {
        lemma_heirs_come_from(t, now, id_slots(t) as nat, i as u8);
    }
}

/// Whether every bond of the table is mutual: the opponent of a player is
/// in the table and has that player as its opponent.
pub open spec fn bonds_mutual(t: Seq<Option<PlayerModel>>) -> bool {
    forall|i: int|
        0 <= i < t.len() && (#[trigger] t[i]) is Some && t[i]->0.opponent is Some ==> {
            let o = t[i]->0.opponent->0;
            o < t.len() && t[o as int] is Some && t[o as int]->0.opponent == Some(i as u8)
        }
}

/// Whether at most one of every two opponents holds the turn.
pub open spec fn one_turn_a_pair(t: Seq<Option<PlayerModel>>) -> bool {
    forall|i: int|
        0 <= i < t.len() && (#[trigger] t[i]) is Some && t[i]->0.opponent is Some && t[i]->0.turn
            ==> {
            let o = t[i]->0.opponent->0;
            o < t.len() && t[o as int] is Some && o != i ==> !t[o as int]->0.turn
        }
}

/// The sweep keeps the duels in order. In a table of mutual bonds in which
/// at most one of every two opponents holds the turn, a player `i` with
/// the opponent `o` is after the sweep still bound to `o` and `o` to it;
/// a turn that either of them holds has not run out; at most one of them
/// holds the turn; and one of them does if one of them did.
pub proof fn lemma_sweep_keeps_pairs(t: Seq<Option<PlayerModel>>, now: u64, i: int, o: u8)
    requires
        t.len() <= MAX_PLAYERS,
        bonds_mutual(t),
        one_turn_a_pair(t),
        0 <= i < t.len(),
        t[i] is Some,
        t[i]->0.opponent == Some(o),
    ensures
        ({
            let a = swept(t, now)[i]->0;
            let b = swept(t, now)[o as int]->0;
            &&& swept(t, now)[i] is Some
            &&& swept(t, now)[o as int] is Some
            &&& a.opponent == Some(o)
            &&& b.opponent == Some(i as u8)
            &&& a.turn ==> now - a.last_turn_time <= MAX_TURN_TIME_MILLIS
            &&& b.turn ==> now - b.last_turn_time <= MAX_TURN_TIME_MILLIS
            &&& o != i ==> !(a.turn && b.turn)
            &&& t[i]->0.turn || t[o as int]->0.turn ==> a.turn || b.turn
        }),
{
    let n = id_slots(t) as nat;
    assert(t[o as int]->0.opponent == Some(i as u8));
    if slot_expired(t, now, i) {
        lemma_heirs_hold(t, now, n, i);
    }
    if slot_expired(t, now, o as int) {
        lemma_heirs_hold(t, now, n, o as int);
    }
    if heirs(t, now, n).contains(i as u8) {
        lemma_heirs_come_from(t, now, n, i as u8);
        let j = choose|j: int| #[trigger]
            slot_expired(t, now, j) && j < n && t[j]->0.opponent == Some(i as u8);
        assert(t[j] is Some);
        assert(j == o);
    }
    if heirs(t, now, n).contains(o) {
        lemma_heirs_come_from(t, now, n, o);
        let j = choose|j: int| #[trigger]
            slot_expired(t, now, j) && j < n && t[j]->0.opponent == Some(o);
        assert(t[j] is Some);
        assert(t[o as int]->0.opponent == Some(j as u8));
        assert(j == i);
    }
}

/// How long ago `then` was at the time `now`; no time where the clock
/// has gone back.
fn elapsed(now: u64, then: u64) -> (millis: u64)
    ensures
        millis == (if now >= then {
            now - then
        } else {
            0
        }),
{
    if now >= then {
        now - then
    } else {
        0
    }
}

/// The first phase of the sweep: takes the turn from every player whose
/// turn has run out, and says who they are.
fn stop_slow_turns(players: &mut Vec<Option<Player>>, now: u64) -> (r: (Vec<Delivery>, Vec<u8>))
    ensures
        final(players)@.len() == old(players)@.len(),
        forall|k: int|
            0 <= k < old(players)@.len() ==> #[trigger] table_model(final(players)@)[k] == (
            match table_model(old(players)@)[k] {
                None => None,
                Some(p) => if slot_expired(table_model(old(players)@), now, k) {
                    Some(PlayerModel { turn: false, ..p })
                } else {
                    Some(p)
                },
            }),
        deliveries_model(r.0@) == slow_notices(
            table_model(old(players)@),
            now,
            id_slots(table_model(old(players)@)) as nat,
        ),
        r.1@ == heirs(
            table_model(old(players)@),
            now,
            id_slots(table_model(old(players)@)) as nat,
        ),
{
    let ghost t = table_model(players@);
    let mut told: Vec<Delivery> = Vec::new();
    let mut opponents: Vec<u8> = Vec::new();
    let mut i: usize = 0;
    assert(deliveries_model(told@) =~= slow_notices(t, now, 0));
    while i < players.len() && i < MAX_PLAYERS
        invariant
            i <= id_slots(t),
            t == table_model(old(players)@),
            players@.len() == old(players)@.len(),
            forall|k: int|
                0 <= k < i ==> #[trigger] table_model(players@)[k] == (match t[k] {
                    None => None,
                    Some(p) => if slot_expired(t, now, k) {
                        Some(PlayerModel { turn: false, ..p })
                    } else {
                        Some(p)
                    },
                }),
            forall|k: int| i <= k < players@.len() ==> #[trigger] table_model(players@)[k] == t[k],
            deliveries_model(told@) == slow_notices(t, now, i as nat),
            opponents@ == heirs(t, now, i as nat),
        decreases players@.len() - i,
    {
        let ghost before = table_model(players@);
        assert(before[i as int] == t[i as int]);
        let mut heir: Option<u8> = None;
        match &mut players[i] {
            Some(player) => {
                if player.turn() {
                    match player.opponent() {
                        Some(opponent) => {
                            if elapsed(now, player.get_last_turn_time()) > MAX_TURN_TIME_MILLIS {
                                player.set_turn(false);
                                heir = Some(opponent);
                            }
                        },
                        None => {},
                    }
                }
            },
            None => {},
        }
        match heir {
            Some(opponent) => {
                opponents.push(opponent);
                let mut out = PlayerOut::new();
                out.append("You're TOO SLOW!!! Your turn is up!\n");
                let ghost earlier = deliveries_model(told@);
                told.push(Delivery { to: i as u8, out });
                assert(deliveries_model(told@) =~= earlier.push(
                    notice(i as u8, "You're TOO SLOW!!! Your turn is up!\n"@),
                ));
            },
            None => {},
        }
        assert forall|k: int| 0 <= k < players@.len() && k != i implies #[trigger] table_model(
            players@,
        )[k] == before[k] by {}
        i = i + 1;
    }
    (told, opponents)
}

/// The background sweep of the authoritative loop: every player whose
/// turn in a duel began more than [`MAX_TURN_TIME_MILLIS`] before `now`
/// loses the turn and is told so; then the opponent of each of them gets
/// the turn, which begins at `now`, and is told so.
pub fn sweep_turns(players: &mut Vec<Option<Player>>, now: u64) -> (told: Vec<Delivery>)
    ensures
        table_model(final(players)@) == swept(table_model(old(players)@), now),
        deliveries_model(told@) == sweep_notices(table_model(old(players)@), now),
{
    let ghost t = table_model(players@);
    let (mut told, opponents) = stop_slow_turns(players, now);
    let ghost stopped = table_model(players@);
    let ghost slow = deliveries_model(told@);
    let mut j: usize = 0;
    assert(deliveries_model(told@) =~= slow + turn_notices(t, opponents@, 0));
    while j < opponents.len()
        invariant
            j <= opponents@.len(),
            players@.len() == t.len(),
            stopped.len() == t.len(),
            forall|k: int| 0 <= k < t.len() ==> (#[trigger] stopped[k] is Some) == (t[k] is Some),
            forall|k: int|
                0 <= k < t.len() ==> #[trigger] table_model(players@)[k] == (match stopped[k] {
                    None => None,
                    Some(p) => if k < MAX_PLAYERS && opponents@.subrange(0, j as int).contains(
                        k as u8,
                    ) {
                        Some(PlayerModel { turn: true, last_turn_time: now, ..p })
                    } else {
                        Some(p)
                    },
                }),
            deliveries_model(told@) == slow + turn_notices(t, opponents@, j as nat),
        decreases opponents@.len() - j,
    {
        let heir = opponents[j];
        let ghost before = table_model(players@);
        let ghost seen = opponents@.subrange(0, j as int);
        let ghost seen_more = opponents@.subrange(0, j + 1);
        assert(seen_more =~= seen.push(heir));
        assert forall|o: u8| seen_more.contains(o) == (seen.contains(o) || o == heir) by {
            if seen.contains(o) {
                let w = choose|w: int| 0 <= w < seen.len() && seen[w] == o;
                assert(seen_more[w] == o);
            }
            if o == heir {
                assert(seen_more[j as int] == o);
            }
        }
        let mut handed = false;
        if (heir as usize) < players.len() {
            match &mut players[heir as usize] {
                Some(player) => {
                    player.set_turn(true);
                    player.set_last_turn_time(now);
                    handed = true;
                },
                None => {},
            }
        }
        if handed {
            let mut out = PlayerOut::new();
            out.append("Your opponent was TOO SLOW!!! It's your turn now!\n");
            let ghost earlier = deliveries_model(told@);
            told.push(Delivery { to: heir, out });
            assert(deliveries_model(told@) =~= earlier.push(
                notice(heir, "Your opponent was TOO SLOW!!! It's your turn now!\n"@),
            ));
        }
        assert(handed == (heir < t.len() && t[heir as int] is Some)) by {
            if heir < t.len() {
                assert(before[heir as int] is Some == stopped[heir as int] is Some);
            }
        }
        assert(deliveries_model(told@) =~= slow + turn_notices(t, opponents@, (j + 1) as nat));
        assert forall|k: int| 0 <= k < t.len() implies #[trigger] table_model(players@)[k] == (
        match stopped[k] {
            None => None,
            Some(p) => if k < MAX_PLAYERS && seen_more.contains(k as u8) {
                Some(PlayerModel { turn: true, last_turn_time: now, ..p })
            } else {
                Some(p)
            },
        }) by {
            if k != heir {
                assert(table_model(players@)[k] == before[k]);
                if k < MAX_PLAYERS {
                    assert(k as u8 != heir);
                }
            } else {
                assert(seen_more.contains(heir));
                assert(before[k] is Some == stopped[k] is Some);
            }
        }
        j = j + 1;
    }
    assert(opponents@.subrange(0, opponents@.len() as int) =~= opponents@);
    assert(table_model(players@) =~= swept(t, now));
    told
}

/// The handler that the keyword `keyword` resolves to for the live entity
/// on the tile `(x, y)`.
pub fn get_entity_action(spawned_entities: &SpawnedEntities, keyword: String, x: u16, y: u16) -> (action:
    Option<Action>)
    ensures
        action == (match entity_at(spawned_entities@, x, y) {
            Ok(entity) => action_of(entity.entity_type, keyword@),
            Err(_) => None,
        }),
{
    match get_entity(spawned_entities, x, y) {
        Some(entity) => {
            let tag = entity.entity_type();
            resolve_action(tag.as_str(), keyword.as_str())
        },
        None => None,
    }
}

/// Whether the handler `action` needs parameters.
pub open spec fn takes_params(action: Action) -> bool {
    action == Action::Dmg || action == Action::Trade
}

/// Whether the handler `action`, run for the player `id`, did what it
/// can do.
pub open spec fn handled(
    action: Action,
    before: Scene,
    params: Seq<ParamModel>,
    id: u8,
    after: Scene,
    r: Result<PlayerOut, Error>,
) -> bool {
    match action {
        Action::ChestInteract => settles(before, after, r, chest_opened(before, id)),
        Action::Dmg => possible_dmg(before, params, id, after, r),
        Action::InteractMob => possible_interact(before, id, after, r),
        Action::Attack => possible_attack(before, id, after, r),
        Action::Trade => settles(before, after, r, trade_outcome(before, params, id)),
    }
}

/// Runs the handler `action` for the player `player_id`. A handler that
/// needs parameters and gets none is not run.
pub fn run_action(
    action: Action,
    entities: &mut SpawnedEntities,
    params: Option<&Vec<Param>>,
    player_id: u8,
    players: &mut Vec<Option<Player>>,
    world: &mut World,
) -> (r: Option<Result<PlayerOut, Error>>)
    ensures
        match r {
            Some(result) => (takes_params(action) ==> params is Some) && handled(
                action,
                scene_of(*old(entities), *old(players), *old(world)),
                if params is Some {
                    params_model(params->0@)
                } else {
                    Seq::empty()
                },
                player_id,
                scene_of(*final(entities), *final(players), *final(world)),
                result,
            ),
            None => takes_params(action) && params is None && same_scene(
                scene_of(*final(entities), *final(players), *final(world)),
                scene_of(*old(entities), *old(players), *old(world)),
            ),
        },
{
    match action {
        Action::ChestInteract => Some(chest_interact(entities, player_id, players, world)),
        Action::InteractMob => Some(interact_mob(entities, player_id, players, world)),
        Action::Attack => Some(attack(entities, player_id, players, world)),
        Action::Dmg => match params {
            Some(given) => Some(dmg(entities, given, player_id, players, world)),
            None => None,
        },
        Action::Trade => match params {
            Some(given) => Some(trade(entities, given, player_id, players, world)),
            None => None,
        },
    }
}

/// Whether the scene `after` is what spawning on the tile `(x, y)` can
/// leave of the scene `before`: where an entity waits on the tile and none
/// lives there, the entity is built and lives there from now on, unless
/// it cannot be built.
pub open spec fn spawn_step(before: Scene, x: u16, y: u16, after: Scene) -> bool {
    if !before.entities.contains_key(tile_key(x, y)) && kind_at(before.world, x, y) is Some {
        exists|outcome: Result<EntityModel, Error>| #[trigger]
            possible_entity(
                waiting_definition(before.world, x, y),
                before.world,
                x,
                y,
                waiting_name(before.world, x, y),
                outcome,
            ) && same_scene(
                after,
                match outcome {
                    Ok(entity) => with_entity(before, x, y, entity),
                    Err(_) => before,
                },
            )
    } else {
        same_scene(after, before)
    }
}

/// The scene after the player `id`, if there is one, has met the entity
/// on its tile.
pub open spec fn met(s: Scene, id: u8) -> Scene {
    match player_at(s.players, id) {
        Ok(p) => with_player(s, id, PlayerModel { interact: true, ..p }),
        Err(_) => s,
    }
}

/// The packets that a handler's result leaves behind: its queue, or
/// nothing where it failed.
pub open spec fn packets_of(r: Result<PlayerOut, Error>) -> Seq<PacketModel> {
    match r {
        Ok(out) => out@,
        Err(_) => Seq::empty(),
    }
}

/// Whether the scene `after` and the packets `greeting` are what meeting
/// the entity on the tile `(x, y)` can leave: a player who has not met it
/// yet runs its handler `interact`, reads what it says, and has met it.
pub open spec fn meet_step(
    before: Scene,
    id: u8,
    x: u16,
    y: u16,
    interact: bool,
    after: Scene,
    greeting: Seq<PacketModel>,
) -> bool {
    if before.entities.contains_key(tile_key(x, y)) && !interact {
        match action_of(before.entities[tile_key(x, y)].entity_type, "interact"@) {
            None => greeting =~= Seq::<PacketModel>::empty() && same_scene(after, before),
            Some(action) => exists|mid: Scene, r: Result<PlayerOut, Error>| #[trigger]
                handled(action, before, Seq::empty(), id, mid, r) && greeting =~= packets_of(r)
                    && same_scene(after, met(mid, id)),
        }
    } else {
        greeting =~= Seq::<PacketModel>::empty() && same_scene(after, before)
    }
}

/// The packets that a command's own result leaves behind: its queue, or
/// an error packet with the message of its failure.
pub open spec fn answer(result: Result<PlayerOut, Error>) -> Seq<PacketModel> {
    match result {
        Ok(out) => out@,
        Err(e) => refusal(e),
    }
}

/// Whether what followed the command of the player `id` is what can
/// follow it. A command that was not run, or whose player is gone, is
/// followed by nothing. Else the entity that waits on the player's tile
/// is spawned, the player meets the entity that lives there, and the
/// player gets the command's answer followed by what the meeting said.
pub open spec fn followed(
    before: Scene,
    result: Option<Result<PlayerOut, Error>>,
    id: u8,
    after: Scene,
    reply: Option<PlayerOut>,
) -> bool {
    match result {
        None => reply is None && same_scene(after, before),
        Some(res) => match player_at(before.players, id) {
            Err(_) => reply is None && same_scene(after, before),
            Ok(p) => exists|mid: Scene, greeting: Seq<PacketModel>| #[trigger]
                meet_step(mid, id, p.x, p.y, p.interact, after, greeting) && spawn_step(
                    before,
                    p.x,
                    p.y,
                    mid,
                ) && reply is Some && reply->0@ =~= joined(answer(res), greeting),
        },
    }
}

/// The entity that was built decides what spawning left.
proof fn lemma_spawn_step(before: Scene, x: u16, y: u16, after: Scene, outcome: Result<EntityModel, Error>)
    requires
        !before.entities.contains_key(tile_key(x, y)),
        kind_at(before.world, x, y) is Some,
        possible_entity(
            waiting_definition(before.world, x, y),
            before.world,
            x,
            y,
            waiting_name(before.world, x, y),
            outcome,
        ),
        same_scene(
            after,
            match outcome {
                Ok(entity) => with_entity(before, x, y, entity),
                Err(_) => before,
            },
        ),
    ensures
        spawn_step(before, x, y, after),
{
}

/// What the handler did decides what the meeting left.
proof fn lemma_meet_step(
    before: Scene,
    id: u8,
    x: u16,
    y: u16,
    after: Scene,
    greeting: Seq<PacketModel>,
    mid: Scene,
    r: Result<PlayerOut, Error>,
)
    requires
        before.entities.contains_key(tile_key(x, y)),
        action_of(before.entities[tile_key(x, y)].entity_type, "interact"@) is Some,
        handled(
            action_of(before.entities[tile_key(x, y)].entity_type, "interact"@)->0,
            before,
            Seq::empty(),
            id,
            mid,
            r,
        ),
        greeting =~= packets_of(r),
        same_scene(after, met(mid, id)),
    ensures
        meet_step(before, id, x, y, false, after, greeting),
{
}

/// The scene between the two steps decides what followed the command.
proof fn lemma_followed(
    before: Scene,
    res: Result<PlayerOut, Error>,
    id: u8,
    after: Scene,
    reply: PlayerOut,
    mid: Scene,
    greeting: Seq<PacketModel>,
)
    requires
        player_at(before.players, id) is Ok,
        spawn_step(
            before,
            player_at(before.players, id)->Ok_0.x,
            player_at(before.players, id)->Ok_0.y,
            mid,
        ),
        meet_step(
            mid,
            id,
            player_at(before.players, id)->Ok_0.x,
            player_at(before.players, id)->Ok_0.y,
            player_at(before.players, id)->Ok_0.interact,
            after,
            greeting,
        ),
        reply@ =~= joined(answer(res), greeting),
    ensures
        followed(before, Some(res), id, after, Some(reply)),
{
}

/// Spawns the entity that waits on the tile `(x, y)`, if one waits there
/// and none lives there. An entity that cannot be built is left waiting.
pub fn spawn_waiting(
    entities: &mut SpawnedEntities,
    players: &Vec<Option<Player>>,
    world: &World,
    x: u16,
    y: u16,
)
    ensures
        spawn_step(
            scene_of(*old(entities), *players, *world),
            x,
            y,
            scene_of(*final(entities), *players, *world),
        ),
{
    let ghost before = scene_of(*entities, *players, *world);
    if !has_entity(entities, x, y) && world.has_entity(x, y) {
        let name = match world.get_entity_name(x, y) {
            Some(name) => name.clone(),
            None => {
                return ;
            },
        };
        let stats = match world.get_entity_properties(x, y) {
            Some(properties) => properties.clone(),
            None => {
                return ;
            },
        };
        let ghost definition = stats@;
        let ghost called = name@;
        let r = spawn(stats, x, y, name, entities, world);
        proof {
            let after = scene_of(*entities, *players, *world);
            let outcome = choose|outcome: Result<EntityModel, Error>| #[trigger]
                possible_entity(definition, world@, x, y, called, outcome) && (match outcome {
                    Ok(entity) => r is Ok && entities@ == before.entities.insert(
                        tile_key(x, y),
                        entity,
                    ),
                    Err(e) => r == Err::<(), Error>(e) && entities@ == before.entities,
                });
            lemma_spawn_step(before, x, y, after, outcome);
        }
    }
}

/// The handler `interact` of an entity takes no parameters.
proof fn lemma_interact_takes_none(tag: Seq<char>)
    ensures
        action_of(tag, "interact"@) matches Some(action) ==> !takes_params(action),
{
    reveal_strlit("interact");
    reveal_strlit("dmg");
    reveal_strlit("trade");
    assert("interact"@.len() == 8);
    assert("dmg"@.len() == 3);
    assert("trade"@.len() == 5);
}

/// What follows a command of the player `player_id` once the command
/// itself was run with the result `result`: the entity that waits on the
/// player's tile is spawned; a player who has not yet met the entity that
/// lives there runs its handler `interact` and has met it from now on;
/// and the reply for the player is the answer of the command, or an
/// error packet where it failed, followed by what the meeting said. A
/// command that was not run, or whose player is gone, gets no reply.
pub fn follow_command(
    result: Option<Result<PlayerOut, Error>>,
    player_id: u8,
    players: &mut Vec<Option<Player>>,
    world: &mut World,
    entities: &mut SpawnedEntities,
) -> (reply: Option<PlayerOut>)
    ensures
        followed(
            scene_of(*old(entities), *old(players), *old(world)),
            result,
            player_id,
            scene_of(*final(entities), *final(players), *final(world)),
            reply,
        ),
{
    let ghost before = scene_of(*entities, *players, *world);
    let res = match result {
        Some(res) => res,
        None => {
            return None;
        },
    };
    let (x, y) = match position_of(players, player_id) {
        Ok(tile) => tile,
        Err(_) => {
            return None;
        },
    };
    let slot = player_id as usize;
    let interact = match &players[slot] {
        Some(p) => p.interact(),
        None => false,
    };
    spawn_waiting(entities, players, world, x, y);
    let ghost mid = scene_of(*entities, *players, *world);
    let ghost own = answer(res);
    let mut out = match res {
        Ok(out) => out,
        Err(e) => {
            let mut out = PlayerOut::new();
            refuse(&mut out, e);
            out
        },
    };
    assert(out@ =~= own);
    let ghost mut greeting: Seq<PacketModel> = Seq::empty();
    if has_entity(entities, x, y) && !interact {
        match get_entity_action(entities, "interact".to_owned(), x, y) {
            Some(action) => {
                proof {
                    lemma_interact_takes_none(mid.entities[tile_key(x, y)].entity_type);
                }
                let r = run_action(action, entities, None, player_id, players, world);
                let ghost handled_scene = scene_of(*entities, *players, *world);
                let ghost handler_result = r->0;
                proof {
                    greeting = packets_of(handler_result);
                }
                match r {
                    Some(Ok(said)) => {
                        out.append_player_out(said);
                    },
                    _ => {},
                }
                if slot < players.len() {
                    match &mut players[slot] {
                        Some(p) => {
                            p.set_interact(true);
                        },
                        None => {},
                    }
                }
                proof {
                    let after = scene_of(*entities, *players, *world);
                    assert(after.players =~= met(handled_scene, player_id).players);
                    lemma_meet_step(
                        mid,
                        player_id,
                        x,
                        y,
                        after,
                        greeting,
                        handled_scene,
                        handler_result,
                    );
                }
            },
            None => {},
        }
    }
    proof {
        let after = scene_of(*entities, *players, *world);
        assert(joined(own, Seq::<PacketModel>::empty()) =~= own);
        lemma_followed(before, res, player_id, after, out, mid, greeting);
    }
    Some(out)
}

} // verus!
