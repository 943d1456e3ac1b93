use mirae_server::display::Img;
use mirae_server::error::Error;
use mirae_server::player::Player;
use mirae_server::playerout::{Packet, PacketType, PlayerOut};
use mirae_server::stats::{Stats, Value};

fn text(payload: &str) -> Packet {
    Packet::new(PacketType::Text, payload.as_bytes().to_vec())
}

fn drain(out: &mut PlayerOut) -> Vec<(PacketType, Vec<u8>)> {
    let mut all = Vec::new();
    while let Some(p) = out.get_pkt() {
        all.push((p.kind(), p.content().clone()));
    }
    all
}

fn player_at(x: u16, y: u16, id: u8) -> Player {
    Player::from(x, y, id, Stats::new())
}

#[test]
fn bytes_frames_a_text_packet() {
    assert_eq!(text("hello").bytes(), b"Text:5:hello".to_vec());
}

#[test]
fn bytes_names_each_kind() {
    assert_eq!(Packet::new(PacketType::Img, vec![1, 2]).bytes(), b"Img:2:\x01\x02".to_vec());
    assert_eq!(Packet::new(PacketType::Init, b"{}".to_vec()).bytes(), b"Init:2:{}".to_vec());
    assert_eq!(Packet::new(PacketType::Error, b"no".to_vec()).bytes(), b"Err:2:no".to_vec());
}

#[test]
fn bytes_of_an_empty_payload() {
    assert_eq!(text("").bytes(), b"Text:0:".to_vec());
}

#[test]
fn bytes_writes_the_length_in_decimal() {
    let payload = vec![b'x'; 12345];
    let wire = Packet::new(PacketType::Text, payload.clone()).bytes();
    assert_eq!(&wire[..11], b"Text:12345:");
    assert_eq!(&wire[11..], &payload[..]);
}

#[test]
fn bytes_does_not_escape_the_payload() {
    assert_eq!(text("a:b:12:").bytes(), b"Text:7:a:b:12:".to_vec());
}

#[test]
fn parse_recovers_kind_and_payload() {
    let kinds = [PacketType::Text, PacketType::Img, PacketType::Init, PacketType::Error];
    let payloads: [&[u8]; 5] = [b"", b"hello", b"a:b:12:", b"Text:3:abc", &[0, 255, 58, 48, 10]];
    for kind in kinds {
        for payload in payloads {
            let wire = Packet::new(kind, payload.to_vec()).bytes();
            let back = Packet::parse(&wire).expect("a frame parses");
            assert_eq!(back.kind(), kind);
            assert_eq!(back.content().as_slice(), payload);
        }
    }
}

#[test]
fn parse_recovers_a_long_payload() {
    let payload: Vec<u8> = (0..70000u32).map(|i| (i % 251) as u8).collect();
    let wire = Packet::new(PacketType::Img, payload.clone()).bytes();
    let back = Packet::parse(&wire).expect("a frame parses");
    assert_eq!(back.kind(), PacketType::Img);
    assert_eq!(back.content(), &payload);
}

#[test]
fn parse_refuses_what_is_no_frame() {
    let bad: [&[u8]; 10] = [
        b"",
        b"Text",
        b"Text:5",
        b"Text:5:hi",
        b"Text:2:hello",
        b"Text::",
        b"Text:x:a",
        b"text:1:a",
        b"Blob:1:a",
        b"Text:99999999999999999999999999:a",
    ];
    for wire in bad {
        assert!(Packet::parse(&wire.to_vec()).is_none());
    }
}

#[test]
fn new_queue_is_empty() {
    let mut out = PlayerOut::new();
    assert_eq!(out.len(), 0);
    assert!(out.get_pkt().is_none());
}

#[test]
fn append_twice_gives_one_text_packet() {
    let mut out = PlayerOut::new();
    out.append("a");
    out.append("b");
    assert_eq!(drain(&mut out), vec![(PacketType::Text, b"ab".to_vec())]);
}

#[test]
fn append_after_another_kind_starts_a_new_text_packet() {
    for kind in [PacketType::Img, PacketType::Error, PacketType::Init] {
        let mut out = PlayerOut::new();
        out.add_pkt(Packet::new(kind, vec![7]));
        out.append("a");
        assert_eq!(drain(&mut out), vec![(kind, vec![7]), (PacketType::Text, b"a".to_vec())]);
    }
}

#[test]
fn append_keeps_utf8_bytes() {
    let mut out = PlayerOut::new();
    out.append("é");
    out.append("→");
    assert_eq!(drain(&mut out), vec![(PacketType::Text, "é→".as_bytes().to_vec())]);
}

#[test]
fn append_of_nothing_still_makes_a_packet() {
    let mut out = PlayerOut::new();
    out.append("");
    assert_eq!(drain(&mut out), vec![(PacketType::Text, Vec::new())]);
}

#[test]
fn append_err_queues_an_error_packet() {
    let mut out = PlayerOut::new();
    out.append("a");
    out.append_err("bad".to_string());
    out.append_err("worse".to_string());
    assert_eq!(
        drain(&mut out),
        vec![
            (PacketType::Text, b"a".to_vec()),
            (PacketType::Error, b"bad".to_vec()),
            (PacketType::Error, b"worse".to_vec()),
        ]
    );
}

#[test]
fn get_pkt_hands_out_the_oldest_first() {
    let mut out = PlayerOut::new();
    out.add_pkt(Packet::new(PacketType::Init, vec![1]));
    out.add_pkt(Packet::new(PacketType::Img, vec![2]));
    assert_eq!(out.len(), 2);
    assert_eq!(out.get_pkt().unwrap().kind(), PacketType::Init);
    assert_eq!(out.get_pkt().unwrap().kind(), PacketType::Img);
    assert!(out.get_pkt().is_none());
}

#[test]
fn add_pkt_does_not_merge_text() {
    let mut out = PlayerOut::new();
    out.add_pkt(text("a"));
    out.add_pkt(text("b"));
    assert_eq!(
        drain(&mut out),
        vec![(PacketType::Text, b"a".to_vec()), (PacketType::Text, b"b".to_vec())]
    );
}

#[test]
fn append_player_out_merges_adjoining_text() {
    let mut a = PlayerOut::new();
    a.add_pkt(Packet::new(PacketType::Img, vec![1]));
    a.append("left ");
    let mut b = PlayerOut::new();
    b.append("right");
    b.append_err("e".to_string());
    a.append_player_out(b);
    assert_eq!(
        drain(&mut a),
        vec![
            (PacketType::Img, vec![1]),
            (PacketType::Text, b"left right".to_vec()),
            (PacketType::Error, b"e".to_vec()),
        ]
    );
}

#[test]
fn append_player_out_keeps_other_packets_as_they_are() {
    let mut a = PlayerOut::new();
    a.append("left");
    let mut b = PlayerOut::new();
    b.append_err("e".to_string());
    b.append("right");
    a.append_player_out(b);
    assert_eq!(
        drain(&mut a),
        vec![
            (PacketType::Text, b"left".to_vec()),
            (PacketType::Error, b"e".to_vec()),
            (PacketType::Text, b"right".to_vec()),
        ]
    );
}

#[test]
fn append_player_out_with_an_empty_side() {
    let mut a = PlayerOut::new();
    let mut b = PlayerOut::new();
    b.append("only");
    b.append_err("e".to_string());
    a.append_player_out(b);
    assert_eq!(a.len(), 2);
    a.append_player_out(PlayerOut::new());
    assert_eq!(
        drain(&mut a),
        vec![(PacketType::Text, b"only".to_vec()), (PacketType::Error, b"e".to_vec())]
    );
}

#[test]
fn append_img_lays_out_the_snapshot() {
    let img = Img { x_origin: 10, y_origin: 20, x_length: 8, y_length: 8, resolution: 2 };
    let players = vec![
        Some(player_at(12, 25, 3)),
        None,
        Some(player_at(9, 25, 4)),
        Some(player_at(17, 27, 5)),
        Some(player_at(18, 27, 6)),
    ];
    let mut out = PlayerOut::new();
    let r = out.append_img(&players, img, vec![1, 2, 3, 4], vec![9, 8]);
    assert_eq!(r, Ok(()));
    let all = drain(&mut out);
    assert_eq!(
        all,
        vec![(
            PacketType::Img,
            vec![0, 2, 0, 3, 0, 1, 0, 2, 0, 5, 0, 3, 0, 3, 0, 4, 0, 2, 1, 2, 3, 4, 0, 1, 9, 8]
        )]
    );
}

#[test]
fn append_img_without_players_or_runs() {
    let img = Img { x_origin: 0, y_origin: 0, x_length: 600, y_length: 1, resolution: 1 };
    let mut out = PlayerOut::new();
    assert_eq!(out.append_img(&Vec::new(), img, Vec::new(), Vec::new()), Ok(()));
    assert_eq!(drain(&mut out), vec![(PacketType::Img, vec![0, 0, 2, 88, 0, 0, 0, 0])]);
}

#[test]
fn append_img_keeps_the_low_byte_of_a_wide_cell() {
    let img = Img { x_origin: 0, y_origin: 0, x_length: 1000, y_length: 1000, resolution: 1 };
    let players = vec![Some(player_at(300, 513, 1))];
    let mut out = PlayerOut::new();
    assert_eq!(out.append_img(&players, img, Vec::new(), Vec::new()), Ok(()));
    let all = drain(&mut out);
    assert_eq!(all[0].1, vec![0, 1, 0, 1, 0, 44, 0, 1, 3, 232, 0, 0, 0, 0]);
}

#[test]
fn append_img_goes_behind_what_is_queued() {
    let img = Img { x_origin: 0, y_origin: 0, x_length: 4, y_length: 4, resolution: 1 };
    let mut data = Stats::new();
    data.set("identity", Value::Int(1));
    let players = vec![Some(Player::from(1, 1, 9, data))];
    let mut out = PlayerOut::new();
    out.append("kept");
    assert_eq!(out.append_img(&players, img, Vec::new(), Vec::new()), Ok(()));
    assert_eq!(
        drain(&mut out),
        vec![
            (PacketType::Text, b"kept".to_vec()),
            (PacketType::Img, vec![0, 1, 0, 9, 0, 1, 0, 1, 0, 4, 0, 0, 0, 0]),
        ]
    );
}

#[test]
fn append_img_refuses_more_players_than_a_byte_counts() {
    let img = Img { x_origin: 0, y_origin: 0, x_length: 4, y_length: 4, resolution: 1 };
    let mut players = Vec::new();
    for i in 0..256usize {
        players.push(Some(player_at(1, 1, i as u8)));
    }
    let mut out = PlayerOut::new();
    out.append("kept");
    assert_eq!(
        out.append_img(&players, img, Vec::new(), Vec::new()),
        Err(Error::ViewTooCrowded)
    );
    assert_eq!(drain(&mut out), vec![(PacketType::Text, b"kept".to_vec())]);
    players.pop();
    let mut out = PlayerOut::new();
    assert_eq!(out.append_img(&players, img, Vec::new(), Vec::new()), Ok(()));
    assert_eq!(out.get_pkt().unwrap().content()[1], 255);
}
