//! The outbound packet protocol: typed packets, their framing on the wire,
//! and the queue of packets that one command leaves behind.

use crate::display::Img;
use crate::error::Error;
use crate::player::{identity_id, table_model, Player, PlayerModel};
use crate::text::{decimal, is_digit, lemma_decimal_digits, push_decimal, push_str, utf8};
use std::collections::VecDeque;
use vstd::prelude::*;

verus! {

/// The kind of an outbound packet.
#[derive(Clone, Copy, Debug, PartialEq, Eq, Structural)]
pub enum PacketType {
    /// Narrative text, UTF-8.
    Text,
    /// A binary snapshot of the map.
    Img,
    /// The display tables, sent once to a new connection.
    Init,
    /// An error message, UTF-8.
    Error,
}

/// What a packet stands for: its kind and its payload.
pub struct PacketModel {
    pub kind: PacketType,
    pub content: Seq<u8>,
}

/// One unit of the outbound protocol.
pub struct Packet {
    p_type: PacketType,
    content: Vec<u8>,
}

impl View for Packet {
    type V = PacketModel;

    closed spec fn view(&self) -> PacketModel {
        PacketModel { kind: self.p_type, content: self.content@ }
    }
}

/// The ASCII byte of the colon that ends both header fields.
pub open spec fn colon() -> u8 {
    58u8
}

/// The name of a packet kind as it stands in a header, in ASCII.
pub open spec fn kind_name(kind: PacketType) -> Seq<u8> {
    match kind {
        PacketType::Text => seq![84u8, 101u8, 120u8, 116u8],
        PacketType::Img => seq![73u8, 109u8, 103u8],
        PacketType::Init => seq![73u8, 110u8, 105u8, 116u8],
        PacketType::Error => seq![69u8, 114u8, 114u8],
    }
}

/// The kind that a header name stands for.
pub open spec fn kind_of_name(name: Seq<u8>) -> Option<PacketType> {
    if name == kind_name(PacketType::Text) {
        Some(PacketType::Text)
    } else if name == kind_name(PacketType::Img) {
        Some(PacketType::Img)
    } else if name == kind_name(PacketType::Init) {
        Some(PacketType::Init)
    } else if name == kind_name(PacketType::Error) {
        Some(PacketType::Error)
    } else {
        None
    }
}

/// The header of a packet: the name of its kind, a colon, the length of its
/// payload as a decimal numeral, a colon.
pub open spec fn header(kind: PacketType, len: nat) -> Seq<u8> {
    kind_name(kind) + seq![colon()] + decimal(len) + seq![colon()]
}

/// A packet as it goes over the wire: its header, then the payload as it
/// stands, with no escaping and no checksum.
pub open spec fn frame(p: PacketModel) -> Seq<u8> {
    header(p.kind, p.content.len()) + p.content
}

/// The index of the first colon in `bytes`, or their length where there is none.
pub open spec fn first_colon(bytes: Seq<u8>) -> int
    decreases bytes.len(),
{
    if bytes.len() == 0 {
        0
    } else if bytes[0] == colon() {
        0
    } else {
        1 + first_colon(bytes.drop_first())
    }
}

/// The number that a decimal numeral stands for; `None` for an empty
/// numeral and for one that holds anything but digits.
pub open spec fn numeral_value(digits: Seq<u8>) -> Option<nat>
    decreases digits.len(),
{
    if digits.len() == 0 {
        None
    } else if !is_digit(digits.last()) {
        None
    } else if digits.len() == 1 {
        Some((digits.last() - 48) as nat)
    } else {
        match numeral_value(digits.drop_last()) {
            Some(high) => Some((high * 10 + (digits.last() - 48)) as nat),
            None => None,
        }
    }
}

/// The packet that a frame holds: the header is read up to its two colons,
/// and the bytes after it are the payload if they are as many as the header
/// says.
pub open spec fn unframe(bytes: Seq<u8>) -> Option<PacketModel> {
    let i = first_colon(bytes);
    if i >= bytes.len() {
        None
    } else {
        let rest = bytes.subrange(i + 1, bytes.len() as int);
        let j = first_colon(rest);
        if j >= rest.len() {
            None
        } else {
            let body = rest.subrange(j + 1, rest.len() as int);
            match (kind_of_name(bytes.subrange(0, i)), numeral_value(rest.subrange(0, j))) {
                (Some(kind), Some(len)) => if len == body.len() {
                    Some(PacketModel { kind, content: body })
                } else {
                    None
                },
                _ => None,
            }
        }
    }
}

/// `first_colon` is in range, points at a colon, and no colon stands before it.
pub proof fn lemma_first_colon(bytes: Seq<u8>)
    ensures
        0 <= first_colon(bytes) <= bytes.len(),
        forall|k: int| 0 <= k < first_colon(bytes) ==> #[trigger] bytes[k] != colon(),
        first_colon(bytes) < bytes.len() ==> bytes[first_colon(bytes)] == colon(),
    decreases bytes.len(),
{
    if bytes.len() != 0 && bytes[0] != colon() {
        let rest = bytes.drop_first();
        lemma_first_colon(rest);
        assert forall|k: int| 0 <= k < first_colon(bytes) implies #[trigger] bytes[k]
            != colon() by {
            if k > 0 {
                assert(bytes[k] == rest[k - 1]);
            }
        }
    }
}

/// The first colon of `bytes` stands at `i` if one stands there and none before.
pub proof fn lemma_first_colon_is(bytes: Seq<u8>, i: int)
    requires
        0 <= i <= bytes.len(),
        forall|k: int| 0 <= k < i ==> #[trigger] bytes[k] != colon(),
        i < bytes.len() ==> bytes[i] == colon(),
    ensures
        first_colon(bytes) == i,
{
    lemma_first_colon(bytes);
    let f = first_colon(bytes);
    if f < i {
        assert(bytes[f] != colon());
    }
    if i < f {
        assert(bytes[i] != colon());
    }
}

/// Reading a numeral gives back the number it was written from.
pub proof fn lemma_numeral_round_trip(n: nat)
    ensures
        numeral_value(decimal(n)) == Some(n),
    decreases n,
{
    if n >= 10 {
        lemma_numeral_round_trip(n / 10);
        lemma_decimal_digits(n / 10);
        assert(decimal(n).drop_last() =~= decimal(n / 10));
    }
}

/// Framing loses nothing: reading the frame of any packet, of whatever kind
/// and with whatever payload, gives back that kind and those bytes.
pub proof fn lemma_frame_round_trip(p: PacketModel)
    ensures
        unframe(frame(p)) == Some(p),
{
    let name = kind_name(p.kind);
    let digits = decimal(p.content.len());
    let bytes = frame(p);
    lemma_decimal_digits(p.content.len());
    lemma_numeral_round_trip(p.content.len());
    let i = name.len() as int;
    assert(forall|k: int| 0 <= k < i ==> bytes[k] == name[k]);
    lemma_first_colon_is(bytes, i);
    let rest = bytes.subrange(i + 1, bytes.len() as int);
    let j = digits.len() as int;
    assert(forall|k: int| 0 <= k < j ==> rest[k] == digits[k]);
    assert(rest[j] == colon());
    lemma_first_colon_is(rest, j);
    assert(bytes.subrange(0, i) =~= name);
    assert(rest.subrange(0, j) =~= digits);
    assert(rest.subrange(j + 1, rest.len() as int) =~= p.content);
}

/// The low eight bits of a number.
pub open spec fn low_byte(i: int) -> u8 {
    (i % 256) as u8
}

/// The low sixteen bits of a number, high byte first.
pub open spec fn be16(n: int) -> Seq<u8> {
    seq![low_byte(n / 256), low_byte(n)]
}

/// The six bytes that tell where a player stands inside the view: the low
/// byte of the player's identity id and of each coordinate, counted in
/// cells from the origin, each behind a zero byte.
pub open spec fn player_record(img: Img, p: PlayerModel, id: i64) -> Seq<u8> {
    seq![
        0u8,
        low_byte(id as int),
        0u8,
        low_byte((p.x - img.x_origin) / (img.resolution as int)),
        0u8,
        low_byte((p.y - img.y_origin) / (img.resolution as int)),
    ]
}

/// The records of the players in the first `n` slots that stand inside the
/// view, in slot order. A player in view without an identity id is an error.
pub open spec fn view_records(img: Img, players: Seq<Option<PlayerModel>>, n: nat) -> Result<
    Seq<u8>,
    Error,
>
    decreases n,
{
    if n == 0 || n > players.len() {
        Ok(Seq::empty())
    } else {
        match view_records(img, players, (n - 1) as nat) {
            Err(e) => Err(e),
            Ok(records) => match players[n - 1] {
                Some(p) => if img.shows(p.x, p.y) {
                    match identity_id(p.data) {
                        Ok(id) => Ok(records + player_record(img, p, id)),
                        Err(e) => Err(e),
                    }
                } else {
                    Ok(records)
                },
                None => Ok(records),
            },
        }
    }
}

/// The payload of a map snapshot: a zero byte, the number of players in
/// view, their records, the width of the view in cells, then the block runs
/// and the entity runs, each behind the number of its two-byte entries.
pub open spec fn img_payload(img: Img, records: Seq<u8>, blocks: Seq<u8>, entities: Seq<u8>) -> Seq<
    u8,
> {
    seq![0u8, low_byte((records.len() / 6) as int)] + records + be16(
        (img.x_length as int) / (img.resolution as int),
    ) + be16((blocks.len() / 2) as int) + blocks + be16((entities.len() / 2) as int) + entities
}

/// The snapshot packet for a view, or why there is none: a player in view
/// lacks an identity id, or more players are in view than one byte counts.
pub open spec fn img_packet(
    img: Img,
    players: Seq<Option<PlayerModel>>,
    blocks: Seq<u8>,
    entities: Seq<u8>,
) -> Result<PacketModel, Error> {
    match view_records(img, players, players.len()) {
        Err(e) => Err(e),
        Ok(records) => if records.len() / 6 > 255 {
            Err(Error::ViewTooCrowded)
        } else {
            Ok(
                PacketModel {
                    kind: PacketType::Img,
                    content: img_payload(img, records, blocks, entities),
                },
            )
        },
    }
}

/// Once the records of the first `n` slots have failed, those of more slots
/// fail in the same way.
pub proof fn lemma_view_records_fails(
    img: Img,
    players: Seq<Option<PlayerModel>>,
    n: nat,
    more: nat,
)
    requires
        n <= more <= players.len(),
        view_records(img, players, n) is Err,
    ensures
        view_records(img, players, more) == view_records(img, players, n),
    decreases more,
{
    if n < more {
        lemma_view_records_fails(img, players, n, (more - 1) as nat);
    }
}

/// The low eight bits of a signed number.
fn low_byte_of(i: i64) -> (b: u8)
    ensures
        b == low_byte(i as int),
{
    if i >= 0 {
        (i % 256) as u8
    } else {
        let k: i64 = -(i + 1);
        (255 - (k % 256)) as u8
    }
}

/// Appends the low sixteen bits of `n`, high byte first.
fn push_be16(buf: &mut Vec<u8>, n: usize)
    ensures
        final(buf)@ == old(buf)@ + be16(n as int),
{
    buf.push(((n / 256) % 256) as u8);
    buf.push((n % 256) as u8);
    assert(buf@ =~= old(buf)@ + be16(n as int));
}

impl PacketType {
    /// Appends the header name of the kind to `buf`.
    fn write_name(self, buf: &mut Vec<u8>)
        ensures
            final(buf)@ == old(buf)@ + kind_name(self),
    {
        match self {
            PacketType::Text => {
                buf.push(84u8);
                buf.push(101u8);
                buf.push(120u8);
                buf.push(116u8);
            },
            PacketType::Img => {
                buf.push(73u8);
                buf.push(109u8);
                buf.push(103u8);
            },
            PacketType::Init => {
                buf.push(73u8);
                buf.push(110u8);
                buf.push(105u8);
                buf.push(116u8);
            },
            PacketType::Error => {
                buf.push(69u8);
                buf.push(114u8);
                buf.push(114u8);
            },
        }
        assert(buf@ =~= old(buf)@ + kind_name(self));
    }
}

impl Packet {
    /// A packet of the given kind and payload.
    pub fn new(p_type: PacketType, content: Vec<u8>) -> (p: Packet)
        ensures
            p@ == (PacketModel { kind: p_type, content: content@ }),
    {
        Packet { p_type, content }
    }

    /// The kind of the packet.
    pub fn kind(&self) -> (kind: PacketType)
        ensures
            kind == self@.kind,
    {
        self.p_type
    }

    /// The payload of the packet.
    pub fn content(&self) -> (content: &Vec<u8>)
        ensures
            content@ == self@.content,
    {
        &self.content
    }

    /// The packet as it goes over the wire.
    pub fn bytes(self) -> (wire: Vec<u8>)
        ensures
            wire@ == frame(self@),
    {
        let mut wire: Vec<u8> = Vec::new();
        let mut content = self.content;
        self.p_type.write_name(&mut wire);
        wire.push(58u8);
        push_decimal(&mut wire, content.len() as u64);
        wire.push(58u8);
        wire.append(&mut content);
        assert(wire@ =~= frame(self@));
        wire
    }
}

/// A numeral that stands for a number holds digits only.
pub proof fn lemma_numeral_digits(digits: Seq<u8>)
    requires
        numeral_value(digits) is Some,
    ensures
        digits.len() >= 1,
        forall|i: int| 0 <= i < digits.len() ==> is_digit(#[trigger] digits[i]),
    decreases digits.len(),
{
    if digits.len() > 1 {
        let front = digits.drop_last();
        lemma_numeral_digits(front);
        assert forall|i: int| 0 <= i < digits.len() implies is_digit(#[trigger] digits[i]) by {
            if i < digits.len() - 1 {
                assert(digits[i] == front[i]);
            }
        }
    }
}

/// The front of a numeral stands for no more than the whole numeral.
pub proof fn lemma_numeral_front(digits: Seq<u8>, k: int)
    requires
        numeral_value(digits) is Some,
        1 <= k <= digits.len(),
    ensures
        numeral_value(digits.subrange(0, k)) is Some,
        numeral_value(digits.subrange(0, k))->0 <= numeral_value(digits)->0,
    decreases digits.len(),
{
    if k == digits.len() {
        assert(digits.subrange(0, k) =~= digits);
    } else {
        let front = digits.drop_last();
        lemma_numeral_front(front, k);
        assert(front.subrange(0, k) =~= digits.subrange(0, k));
    }
}

/// The place of the first colon at or after `from`, or the length of the
/// bytes where there is none.
fn find_colon(wire: &Vec<u8>, from: usize) -> (i: usize)
    requires
        from <= wire@.len(),
    ensures
        from <= i <= wire@.len(),
        i - from == first_colon(wire@.subrange(from as int, wire@.len() as int)),
{
    let ghost rest = wire@.subrange(from as int, wire@.len() as int);
    let mut i: usize = from;
    while i < wire.len() && wire[i] != 58u8
        invariant
            from <= i <= wire@.len(),
            rest == wire@.subrange(from as int, wire@.len() as int),
            forall|k: int| 0 <= k < i - from ==> #[trigger] rest[k] != colon(),
        decreases wire@.len() - i,
    {
        i = i + 1;
    }
    proof {
        lemma_first_colon_is(rest, i - from);
    }
    i
}

/// The kind that the first `end` bytes name.
fn read_kind(wire: &Vec<u8>, end: usize) -> (kind: Option<PacketType>)
    requires
        end <= wire@.len(),
    ensures
        kind == kind_of_name(wire@.subrange(0, end as int)),
{
    let ghost name = wire@.subrange(0, end as int);
    if end == 4 && wire[0] == 84u8 && wire[1] == 101u8 && wire[2] == 120u8 && wire[3] == 116u8 {
        assert(name =~= kind_name(PacketType::Text));
        Some(PacketType::Text)
    } else if end == 3 && wire[0] == 73u8 && wire[1] == 109u8 && wire[2] == 103u8 {
        assert(name =~= kind_name(PacketType::Img));
        Some(PacketType::Img)
    } else if end == 4 && wire[0] == 73u8 && wire[1] == 110u8 && wire[2] == 105u8 && wire[3]
        == 116u8 {
        assert(name =~= kind_name(PacketType::Init));
        Some(PacketType::Init)
    } else if end == 3 && wire[0] == 69u8 && wire[1] == 114u8 && wire[2] == 114u8 {
        assert(name =~= kind_name(PacketType::Error));
        Some(PacketType::Error)
    } else {
        proof {
            let text = kind_name(PacketType::Text);
            let img = kind_name(PacketType::Img);
            let init = kind_name(PacketType::Init);
            let err = kind_name(PacketType::Error);
            if name == text {
                assert(name.len() == 4 && name[0] == text[0] && name[1] == text[1] && name[2]
                    == text[2] && name[3] == text[3]);
            }
            if name == img {
                assert(name.len() == 3 && name[0] == img[0] && name[1] == img[1] && name[2]
                    == img[2]);
            }
            if name == init {
                assert(name.len() == 4 && name[0] == init[0] && name[1] == init[1] && name[2]
                    == init[2] && name[3] == init[3]);
            }
            if name == err {
                assert(name.len() == 3 && name[0] == err[0] && name[1] == err[1] && name[2]
                    == err[2]);
            }
        }
        None
    }
}

/// The number that the numeral in the bytes from `from` to `to` stands
/// for, if it is one and stands for no more than `limit`.
fn read_numeral(wire: &Vec<u8>, from: usize, to: usize, limit: usize) -> (value: Option<usize>)
    requires
        from <= to <= wire@.len(),
    ensures
        match value {
            Some(v) => numeral_value(wire@.subrange(from as int, to as int)) == Some(v as nat)
                && v <= limit,
            None => match numeral_value(wire@.subrange(from as int, to as int)) {
                Some(v) => v > limit,
                None => true,
            },
        },
{
    let ghost digits = wire@.subrange(from as int, to as int);
    if from == to {
        return None;
    }
    let mut value: usize = 0;
    let mut k: usize = from;
    while k < to
        invariant
            from <= k <= to <= wire@.len(),
            digits == wire@.subrange(from as int, to as int),
            k > from ==> numeral_value(digits.subrange(0, k - from)) == Some(value as nat),
            k == from ==> value == 0,
            value <= limit,
        decreases to - k,
    {
        let d = wire[k];
        if d < 48u8 || d > 57u8 {
            proof {
                if numeral_value(digits) is Some {
                    lemma_numeral_digits(digits);
                    assert(digits[k - from] == d);
                }
            }
            return None;
        }
        let ghost front = digits.subrange(0, k - from + 1);
        proof {
            assert(front.last() == d);
            assert(front.drop_last() =~= digits.subrange(0, k - from));
        }
        let digit: usize = (d - 48u8) as usize;
        if digit > limit || value > (limit - digit) / 10 {
            proof {
                assert(value * 10 + digit > limit);
                if numeral_value(digits) is Some {
                    lemma_numeral_front(digits, k - from + 1);
                }
            }
            return None;
        }
        value = value * 10 + digit;
        k = k + 1;
    }
    assert(digits.subrange(0, to - from) =~= digits);
    Some(value)
}

/// A copy of the bytes from `from` on.
fn copy_tail(wire: &Vec<u8>, from: usize) -> (tail: Vec<u8>)
    requires
        from <= wire@.len(),
    ensures
        tail@ == wire@.subrange(from as int, wire@.len() as int),
{
    let mut tail: Vec<u8> = Vec::new();
    let mut m: usize = from;
    assert(tail@ =~= wire@.subrange(from as int, m as int));
    while m < wire.len()
        invariant
            from <= m <= wire@.len(),
            tail@ == wire@.subrange(from as int, m as int),
        decreases wire@.len() - m,
    {
        tail.push(wire[m]);
        m = m + 1;
        assert(tail@ =~= wire@.subrange(from as int, m as int));
    }
    tail
}

impl Packet {
    /// Reads a packet from the bytes that went over the wire. Bytes that
    /// are no frame give no packet.
    pub fn parse(wire: &Vec<u8>) -> (p: Option<Packet>)
        ensures
            match p {
                Some(packet) => unframe(wire@) == Some(packet@),
                None => unframe(wire@) is None,
            },
    {
        let ghost bytes = wire@;
        assert(bytes.subrange(0, bytes.len() as int) =~= bytes);
        let i = find_colon(wire, 0);
        if i >= wire.len() {
            return None;
        }
        let kind = read_kind(wire, i);
        let ghost rest = bytes.subrange(i + 1, bytes.len() as int);
        let j = find_colon(wire, i + 1);
        if j >= wire.len() {
            return None;
        }
        let body_len: usize = wire.len() - j - 1;
        assert(rest.subrange(0, j - i - 1) =~= bytes.subrange(i + 1, j as int));
        assert(rest.subrange(j - i, rest.len() as int) =~= bytes.subrange(
            j + 1,
            bytes.len() as int,
        ));
        let value = read_numeral(wire, i + 1, j, body_len);
        match (kind, value) {
            (Some(p_type), Some(v)) => {
                if v == body_len {
                    Some(Packet { p_type, content: copy_tail(wire, j + 1) })
                } else {
                    None
                }
            },
            _ => None,
        }
    }
}

/// The queue of packets that resolving one command leaves for one player.
pub struct PlayerOut {
    packets: VecDeque<Packet>,
}

impl View for PlayerOut {
    type V = Seq<PacketModel>;

    closed spec fn view(&self) -> Seq<PacketModel> {
        Seq::new(self.packets@.len(), |i: int| self.packets@[i]@)
    }
}

/// A text packet with the given payload.
pub open spec fn text_packet(content: Seq<u8>) -> PacketModel {
    PacketModel { kind: PacketType::Text, content }
}

/// The queue after `text` is appended: it goes to the end of the last packet
/// if that is a text packet, and into a new text packet otherwise.
pub open spec fn with_text(q: Seq<PacketModel>, text: Seq<u8>) -> Seq<PacketModel> {
    if q.len() > 0 && q.last().kind == PacketType::Text {
        q.update(q.len() - 1, text_packet(q.last().content + text))
    } else {
        q.push(text_packet(text))
    }
}

/// The queue `a` followed by the queue `b`: where `a` ends and `b` begins
/// with a text packet the two become one, and every other packet stays as
/// it is, in order.
pub open spec fn joined(a: Seq<PacketModel>, b: Seq<PacketModel>) -> Seq<PacketModel> {
    if a.len() > 0 && b.len() > 0 && a.last().kind == PacketType::Text && b.first().kind
        == PacketType::Text {
        a.drop_last().push(text_packet(a.last().content + b.first().content)) + b.drop_first()
    } else {
        a + b
    }
}

/// Text appended in two pieces reads as text appended in one.
pub proof fn lemma_with_text_twice(q: Seq<PacketModel>, first: Seq<u8>, second: Seq<u8>)
    ensures
        with_text(with_text(q, first), second) == with_text(q, first + second),
{
    let once = with_text(q, first);
    assert(once.last().kind == PacketType::Text);
    if q.len() > 0 && q.last().kind == PacketType::Text {
        assert((q.last().content + first) + second =~= q.last().content + (first + second));
    }
    assert(with_text(once, second) =~= with_text(q, first + second));
}

impl PlayerOut {
    /// An empty queue.
    pub fn new() -> (out: PlayerOut)
        ensures
            out@ == Seq::<PacketModel>::empty(),
    {
        let out = PlayerOut { packets: VecDeque::new() };
        assert(out@ =~= Seq::<PacketModel>::empty());
        out
    }

    /// The number of queued packets.
    pub fn len(&self) -> (n: usize)
        ensures
            n == self@.len(),
    {
        self.packets.len()
    }

    /// Appends the UTF-8 bytes of `text`: to the last packet if that is a
    /// text packet, as a new text packet otherwise.
    pub fn append(&mut self, text: &str)
        ensures
            final(self)@ == with_text(old(self)@, utf8(text@)),
    {
        let mut bytes: Vec<u8> = Vec::new();
        push_str(&mut bytes, text);
        assert(bytes@ =~= utf8(text@));
        self.append_bytes(bytes);
    }

    /// Appends `text` as [`PlayerOut::append`] does, from bytes.
    pub fn append_bytes(&mut self, text: Vec<u8>)
        ensures
            final(self)@ == with_text(old(self)@, text@),
    {
        let ghost appended = text@;
        let mut text = text;
        match self.packets.pop_back() {
            Some(last) => {
                if last.p_type == PacketType::Text {
                    let mut last = last;
                    last.content.append(&mut text);
                    self.packets.push_back(last);
                } else {
                    self.packets.push_back(last);
                    self.packets.push_back(Packet { p_type: PacketType::Text, content: text });
                }
            },
            None => {
                self.packets.push_back(Packet { p_type: PacketType::Text, content: text });
            },
        }
        assert(self@ =~= with_text(old(self)@, appended));
    }

    /// Queues an error packet that holds the UTF-8 bytes of `err_string`.
    pub fn append_err(&mut self, err_string: String)
        ensures
            final(self)@ == old(self)@.push(
                PacketModel { kind: PacketType::Error, content: utf8(err_string@) },
            ),
    {
        let mut bytes: Vec<u8> = Vec::new();
        push_str(&mut bytes, err_string.as_str());
        assert(bytes@ =~= utf8(err_string@));
        self.packets.push_back(Packet { p_type: PacketType::Error, content: bytes });
        assert(self@ =~= old(self)@.push(
            PacketModel { kind: PacketType::Error, content: utf8(err_string@) },
        ));
    }

    /// Queues a snapshot of the view `img`: the players of the table that
    /// stand inside it, and the block and entity runs that the renderer
    /// drew for it. `img.resolution` is not zero. Where no snapshot can be
    /// made the queue is left as it was.
    pub fn append_img(
        &mut self,
        players: &Vec<Option<Player>>,
        img: Img,
        blocks: Vec<u8>,
        entities: Vec<u8>,
    ) -> (r: Result<(), Error>)
        requires
            img.resolution > 0,
        ensures
            match img_packet(img, table_model(players@), blocks@, entities@) {
                Ok(p) => r is Ok && final(self)@ == old(self)@.push(p),
                Err(e) => r == Err::<(), Error>(e) && final(self)@ == old(self)@,
            },
    {
        let ghost table = table_model(players@);
        let mut records: Vec<u8> = Vec::new();
        let mut k: usize = 0;
        while k < players.len()
            invariant
                k <= players@.len(),
                img.resolution > 0,
                table == table_model(players@),
                self@ == old(self)@,
                view_records(img, table, k as nat) == Ok::<Seq<u8>, Error>(records@),
            decreases players@.len() - k,
        {
            match &players[k] {
                Some(p) => {
                    let p_x = p.x();
                    let p_y = p.y();
                    if img.contains(p_x, p_y) {
                        let id = match p.identity_id() {
                            Ok(id) => id,
                            Err(e) => {
                                proof {
                                    lemma_view_records_fails(
                                        img,
                                        table,
                                        (k + 1) as nat,
                                        table.len(),
                                    );
                                }
                                return Err(e);
                            },
                        };
                        let ghost before = records@;
                        records.push(0);
                        records.push(low_byte_of(id));
                        records.push(0);
                        records.push((((p_x - img.x_origin) / img.resolution) % 256) as u8);
                        records.push(0);
                        records.push((((p_y - img.y_origin) / img.resolution) % 256) as u8);
                        assert(records@ =~= before + player_record(img, p@, id));
                    }
                },
                None => {},
            }
            k = k + 1;
        }
        if records.len() / 6 > 255 {
            return Err(Error::ViewTooCrowded);
        }
        let ghost block_runs = blocks@;
        let ghost entity_runs = entities@;
        let mut blocks = blocks;
        let mut entities = entities;
        let mut content: Vec<u8> = Vec::new();
        content.push(0);
        content.push((records.len() / 6) as u8);
        content.append(&mut records);
        push_be16(&mut content, (img.x_length / img.resolution) as usize);
        push_be16(&mut content, blocks.len() / 2);
        content.append(&mut blocks);
        push_be16(&mut content, entities.len() / 2);
        content.append(&mut entities);
        assert(content@ =~= img_payload(
            img,
            view_records(img, table, table.len())->Ok_0,
            block_runs,
            entity_runs,
        ));
        self.packets.push_back(Packet { p_type: PacketType::Img, content });
        assert(self@ =~= old(self)@.push(
            img_packet(img, table, block_runs, entity_runs)->Ok_0,
        ));
        Ok(())
    }

    /// Takes the oldest packet off the queue.
    pub fn get_pkt(&mut self) -> (pkt: Option<Packet>)
        ensures
            match pkt {
                Some(p) => old(self)@.len() > 0 && p@ == old(self)@.first() && final(self)@
                    == old(self)@.drop_first(),
                None => old(self)@.len() == 0 && final(self)@ == old(self)@,
            },
    {
        let pkt = self.packets.pop_front();
        proof {
            if pkt is Some {
                assert(self@ =~= old(self)@.drop_first());
            } else {
                assert(self@ =~= old(self)@);
            }
        }
        pkt
    }

    /// Puts `p` at the end of the queue, as it is.
    pub fn add_pkt(&mut self, p: Packet)
        ensures
            final(self)@ == old(self)@.push(p@),
    {
        self.packets.push_back(p);
        assert(self@ =~= old(self)@.push(p@));
    }

    /// Puts the packets of `p_out` behind those of this queue. Where this
    /// queue ends and `p_out` begins with a text packet, the two become one.
    pub fn append_player_out(&mut self, p_out: PlayerOut)
        ensures
            final(self)@ == joined(old(self)@, p_out@),
    {
        let mut p_out = p_out;
        let ghost a = self@;
        let ghost b = p_out@;
        let mut first = p_out.get_pkt();
        match self.packets.pop_back() {
            Some(last) => {
                let mut last = last;
                let merge = match &first {
                    Some(f) => last.p_type == PacketType::Text && f.p_type == PacketType::Text,
                    None => false,
                };
                if merge {
                    match first {
                        Some(f) => {
                            let mut f = f;
                            last.content.append(&mut f.content);
                        },
                        None => {},
                    }
                    first = p_out.get_pkt();
                }
                self.packets.push_back(last);
            },
            None => {},
        }
        assert(self@ + (match first {
            Some(f) => seq![f@] + p_out@,
            None => p_out@,
        }) =~= joined(a, b));
        loop
            invariant
                self@ + (match first {
                    Some(f) => seq![f@] + p_out@,
                    None => p_out@,
                }) == joined(a, b),
                first is None ==> p_out@.len() == 0,
            ensures
                self@ == joined(a, b),
            decreases p_out@.len() + (if first is Some { 1nat } else { 0nat }),
        {
            match first {
                Some(f) => {
                    let ghost before = self@;
                    let ghost rest = p_out@;
                    self.packets.push_back(f);
                    first = p_out.get_pkt();
                    assert(self@ + (match first {
                        Some(g) => seq![g@] + p_out@,
                        None => p_out@,
                    }) =~= before + (seq![f@] + rest));
                },
                None => {
                    assert(self@ + p_out@ =~= self@);
                    break;
                },
            }
        }
    }
}

} // verus!
