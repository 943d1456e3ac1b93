use mirae_server::position::hash;

#[test]
fn hash_puts_y_above_x() {
    assert_eq!(hash(0, 0), 0);
    assert_eq!(hash(1, 0), 1);
    assert_eq!(hash(0, 1), 65536);
    assert_eq!(hash(0x1234, 0xabcd), 0xabcd1234);
    assert_eq!(hash(65535, 65535), u32::MAX);
}

#[test]
fn hash_tells_tiles_apart() {
    let tiles = [(0u16, 0u16), (0, 1), (1, 0), (1, 1), (256, 0), (0, 256), (65535, 0), (0, 65535)];
    for a in tiles {
        for b in tiles {
            assert_eq!(hash(a.0, a.1) == hash(b.0, b.1), a == b);
        }
    }
}

#[test]
fn hash_is_one_to_one_on_a_square() {
    let mut seen = std::collections::HashSet::new();
    for x in 0..200u16 {
        for y in 0..200u16 {
            assert!(seen.insert(hash(x * 300, y * 300)));
        }
    }
}
