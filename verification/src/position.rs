//! Position keys of the live-entity table.

use vstd::prelude::*;

verus! {

/// The key of the tile at `(x, y)`: `y` in the high sixteen bits, `x` in the low ones.
pub open spec fn position_key(x: int, y: int) -> int {
    y * 0x1_0000 + x
}

/// Computes the key under which the tile at `(x, y)` is stored.
pub fn hash(x: u16, y: u16) -> (key: u32)
    ensures
        key == position_key(x as int, y as int),
{
    let key: u32 = ((y as u32) << 16) | (x as u32);
    assert((((y as u32) << 16) | (x as u32)) == (y as u32) * 0x1_0000 + (x as u32)) by (bit_vector);
    key
}

/// No two distinct tiles share a key: over sixteen-bit coordinates the key
/// determines both of them.
pub proof fn lemma_position_key_injective(x1: int, y1: int, x2: int, y2: int)
    requires
        0 <= x1 <= 0xffff,
        0 <= y1 <= 0xffff,
        0 <= x2 <= 0xffff,
        0 <= y2 <= 0xffff,
        position_key(x1, y1) == position_key(x2, y2),
    ensures
        x1 == x2,
        y1 == y2,
{
}

} // verus!
