//! The order in which a font's glyphs are handed to the packer.
//!
//! The packer never rebalances, so feeding it the tallest glyphs first keeps
//! pages from fragmenting.
use vstd::prelude::*;

verus! {

/// Where a glyph of the given height goes: glyphs without a bounding box
/// first, then by decreasing height.
pub open spec fn height_rank(height: Option<i16>) -> int {
    match height {
        None => i32::MIN as int,
        Some(h) => -(h as int),
    }
}

/// Glyph `a` is packed before glyph `b`: it ranks lower, or ranks the same
/// and has the lower id.
pub open spec fn packed_before(heights: Seq<Option<i16>>, a: int, b: int) -> bool {
    height_rank(heights[a]) < height_rank(heights[b]) || (height_rank(heights[a]) == height_rank(
        heights[b],
    ) && a < b)
}

/// Integer pairs in lexicographic order.
pub open spec fn pair_le(a: (i32, u16), b: (i32, u16)) -> bool {
    a.0 < b.0 || (a.0 == b.0 && a.1 <= b.1)
}

/// Relies on `slice::sort_unstable`: the same items, in non-decreasing order;
/// tuples of integers compare lexicographically.
#[verifier::external_body]
fn sort_pairs(v: &mut Vec<(i32, u16)>)
    ensures
        final(v)@.to_multiset() == old(v)@.to_multiset(),
        forall|i: int, j: int|
            0 <= i < j < final(v)@.len() ==> pair_le(#[trigger] final(v)@[i], #[trigger] final(v)@[j]),
{
    v.sort_unstable()
}

fn rank_of(height: Option<i16>) -> (r: i32)
    ensures
        r as int == height_rank(height),
{
    match height {
        None => i32::MIN,
        Some(h) => -(h as i32),
    }
}

/// The glyph ids `0..heights.len()` in packing order: glyphs without a
/// bounding box first, then by decreasing height, ties by increasing id.
pub fn packing_order(heights: &[Option<i16>]) -> (r: Vec<u16>)
    requires
        heights@.len() <= 0x1_0000,
    ensures
        r@.len() == heights@.len(),
        forall|i: int| 0 <= i < r@.len() ==> (#[trigger] r@[i] as int) < heights@.len(),
        forall|i: int, j: int|
            0 <= i < j < r@.len() ==> packed_before(heights@, #[trigger] r@[i] as int, #[trigger] r@[j] as int),
{
    let mut pairs: Vec<(i32, u16)> = Vec::new();
    let mut i: usize = 0;
    while i < heights.len()
        invariant
            i <= heights@.len(),
            heights@.len() <= 0x1_0000,
            pairs@.len() == i,
            forall|k: int|
                0 <= k < i ==> #[trigger] pairs@[k] == (height_rank(heights@[k]) as i32, k as u16),
        decreases heights@.len() - i,
    {
        pairs.push((rank_of(heights[i]), i as u16));
        i = i + 1;
    }
    let ghost before = pairs@;
    assert(before.no_duplicates()) by {
        assert forall|a: int, b: int|
            0 <= a < before.len() && 0 <= b < before.len() && a != b implies before[a] != before[b] by {
            assert(before[a].1 == a as u16 && before[b].1 == b as u16);
        }
    }
    sort_pairs(&mut pairs);
    let ghost sorted = pairs@;
    proof {
        broadcast use vstd::seq_lib::group_to_multiset_ensures;

        assert(sorted.len() == sorted.to_multiset().len());
        assert(before.len() == before.to_multiset().len());
        before.lemma_multiset_has_no_duplicates();
        sorted.lemma_multiset_has_no_duplicates_conv();
        assert forall|k: int| 0 <= k < sorted.len() implies exists|m: int|
            0 <= m < before.len() && before[m] == #[trigger] sorted[k] by {
            assert(sorted.contains(sorted[k]));
            assert(sorted.to_multiset().count(sorted[k]) > 0);
            assert(before.contains(sorted[k]));
        }
    }
    let mut out: Vec<u16> = Vec::new();
    let mut k: usize = 0;
    while k < pairs.len()
        invariant
            pairs@ == sorted,
            sorted.len() == heights@.len(),
            k <= sorted.len(),
            out@.len() == k,
            forall|m: int| 0 <= m < k ==> #[trigger] out@[m] == sorted[m].1,
        decreases sorted.len() - k,
    {
        out.push(pairs[k].1);
        k = k + 1;
    }
    proof {
        assert forall|a: int| 0 <= a < sorted.len() implies sorted[a].0 == height_rank(
            heights@[sorted[a].1 as int],
        ) && (sorted[a].1 as int) < heights@.len() by {
            let m = choose|m: int| 0 <= m < before.len() && before[m] == sorted[a];
            assert(before[m] == (height_rank(heights@[m]) as i32, m as u16));
        }
        assert forall|a: int, b: int| 0 <= a < b < out@.len() implies packed_before(
            heights@,
            #[trigger] out@[a] as int,
            #[trigger] out@[b] as int,
        ) by {
            assert(pair_le(sorted[a], sorted[b]));
            assert(sorted[a] != sorted[b]);
        }
    }
    out
}

} // verus!
