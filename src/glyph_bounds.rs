//! Glyph bounding boxes packed into 64 bits for the binding layer.
use vstd::prelude::*;

verus! {

/// A glyph's bounding box in font units.
#[derive(Clone, Copy, Debug, PartialEq, Eq, Structural)]
pub struct BoundingBox {
    pub x_min: i16,
    pub y_min: i16,
    pub x_max: i16,
    pub y_max: i16,
}

/// Packs a bounding box: from the lowest bits up, 16 bits each of `x_min`,
/// `y_min`, `x_max` and `y_max` in two's complement.
pub fn pack_bounding_box(b: BoundingBox) -> (r: u64)
    ensures
        r & 0xFFFF == b.x_min as u16 as u64,
        (r >> 16u64) & 0xFFFF == b.y_min as u16 as u64,
        (r >> 32u64) & 0xFFFF == b.x_max as u16 as u64,
        r >> 48u64 == b.y_max as u16 as u64,
{
    let (a, c, d, e) = (
        b.x_min as u16 as u64,
        b.y_min as u16 as u64,
        b.x_max as u16 as u64,
        b.y_max as u16 as u64,
    );
    let r = a | (c << 16u64) | (d << 32u64) | (e << 48u64);
    proof {
        assert(r & 0xFFFF == a && (r >> 16u64) & 0xFFFF == c && (r >> 32u64) & 0xFFFF == d && r
            >> 48u64 == e) by (bit_vector)
            requires
                r == a | (c << 16u64) | (d << 32u64) | (e << 48u64),
                a < 0x1_0000,
                c < 0x1_0000,
                d < 0x1_0000,
                e < 0x1_0000,
        ;
    }
    r
}

/// The packed bounding box of each glyph in order; a glyph without one gets 0.
pub fn pack_bounding_boxes(boxes: &[Option<BoundingBox>]) -> (r: Vec<u64>)
    ensures
        r@.len() == boxes@.len(),
        forall|i: int|
            0 <= i < boxes@.len() ==> match #[trigger] boxes@[i] {
                Some(b) => {
                    &&& r@[i] & 0xFFFF == b.x_min as u16 as u64
                    &&& (r@[i] >> 16u64) & 0xFFFF == b.y_min as u16 as u64
                    &&& (r@[i] >> 32u64) & 0xFFFF == b.x_max as u16 as u64
                    &&& r@[i] >> 48u64 == b.y_max as u16 as u64
                },
                None => r@[i] == 0,
            },
{
    let mut out: Vec<u64> = Vec::new();
    let mut i: usize = 0;
    while i < boxes.len()
        invariant
            i <= boxes@.len(),
            out@.len() == i,
            forall|k: int|
                0 <= k < i ==> match #[trigger] boxes@[k] {
                    Some(b) => {
                        &&& out@[k] & 0xFFFF == b.x_min as u16 as u64
                        &&& (out@[k] >> 16u64) & 0xFFFF == b.y_min as u16 as u64
                        &&& (out@[k] >> 32u64) & 0xFFFF == b.x_max as u16 as u64
                        &&& out@[k] >> 48u64 == b.y_max as u16 as u64
                    },
                    None => out@[k] == 0,
                },
        decreases boxes@.len() - i,
    {
        let packed = match boxes[i] {
            Some(b) => pack_bounding_box(b),
            None => 0,
        };
        out.push(packed);
        i = i + 1;
    }
    out
}

} // verus!
