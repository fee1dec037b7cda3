//! Shaped glyph runs, flattened into integers for the binding layer.
use vstd::prelude::*;

verus! {

/// One glyph of a shaped run, as the shaping engine reports it.
#[derive(Clone, Copy, Debug, PartialEq, Eq, Structural)]
pub struct ShapedGlyph {
    pub glyph_id: u32,
    pub unsafe_to_break: bool,
    pub cluster: u32,
    pub x_advance: i32,
    pub y_advance: i32,
    pub x_offset: i32,
    pub y_offset: i32,
}

/// Six integers per glyph: the glyph id with the unsafe-to-break flag in
/// bit 16, the cluster, the advances and the offsets.
pub struct ShapingResultEntry(pub [i32; 6]);

/// A shaped run and its total horizontal advance.
pub struct ShapingResult {
    pub data: Vec<ShapingResultEntry>,
    pub total_width: i32,
}

/// The first integer of an entry: the glyph id, with the unsafe-to-break
/// flag in bit 16.
pub open spec fn id_word(g: ShapedGlyph) -> i32 {
    (g.glyph_id as i32) | ((if g.unsafe_to_break { 1i32 } else { 0i32 }) << 16i32)
}

/// The entry of one glyph.
pub open spec fn entry_of(g: ShapedGlyph) -> Seq<i32> {
    seq![id_word(g), g.cluster as i32, g.x_advance, g.y_advance, g.x_offset, g.y_offset]
}

/// The sum of the horizontal advances, wrapping around as `i32` addition does.
pub open spec fn total_advance(glyphs: Seq<ShapedGlyph>) -> i32
    decreases glyphs.len(),
{
    if glyphs.len() == 0 {
        0
    } else {
        total_advance(glyphs.drop_last()).wrapping_add(glyphs.last().x_advance)
    }
}

impl ShapingResult {
    /// Flattens a shaped run.
    pub fn from_glyphs(glyphs: &[ShapedGlyph]) -> (r: ShapingResult)
        ensures
            r.data@.len() == glyphs@.len(),
            forall|i: int| 0 <= i < glyphs@.len() ==> (#[trigger] r.data@[i]).0@ == entry_of(glyphs@[i]),
            r.total_width == total_advance(glyphs@),
    {
        let mut data: Vec<ShapingResultEntry> = Vec::new();
        let mut total_width: i32 = 0;
        let mut i: usize = 0;
        while i < glyphs.len()
            invariant
                i <= glyphs@.len(),
                data@.len() == i,
                forall|k: int| 0 <= k < i ==> (#[trigger] data@[k]).0@ == entry_of(glyphs@[k]),
                total_width == total_advance(glyphs@.subrange(0, i as int)),
            decreases glyphs@.len() - i,
        {
            let g = glyphs[i];
            let flag: i32 = if g.unsafe_to_break { 1 } else { 0 };
            let entry = [
                (g.glyph_id as i32) | (flag << 16i32),
                g.cluster as i32,
                g.x_advance,
                g.y_advance,
                g.x_offset,
                g.y_offset,
            ];
            assert(entry@ =~= entry_of(g));
            data.push(ShapingResultEntry(entry));
            assert(glyphs@.subrange(0, i + 1 as int).drop_last() =~= glyphs@.subrange(0, i as int));
            total_width = total_width.wrapping_add(g.x_advance);
            i = i + 1;
        }
        assert(glyphs@.subrange(0, i as int) =~= glyphs@);
        ShapingResult { data, total_width }
    }

    /// The entries laid end to end, six integers per glyph.
    pub fn data_as_i32s(&self) -> (r: Vec<i32>)
        ensures
            r@.len() == 6 * self.data@.len(),
            forall|i: int, j: int|
                0 <= i < self.data@.len() && 0 <= j < 6 ==> r@[6 * i + j] == #[trigger] self.data@[i].0@[j],
    {
        let mut out: Vec<i32> = Vec::new();
        let mut i: usize = 0;
        while i < self.data.len()
            invariant
                i <= self.data@.len(),
                out@.len() == 6 * i,
                forall|k: int, j: int|
                    0 <= k < i && 0 <= j < 6 ==> out@[6 * k + j] == #[trigger] self.data@[k].0@[j],
            decreases self.data@.len() - i,
        {
            let e = &self.data[i];
            let mut j: usize = 0;
            while j < 6
                invariant
                    i < self.data@.len(),
                    e == self.data@[i as int],
                    j <= 6,
                    out@.len() == 6 * i + j,
                    forall|k: int, m: int|
                        0 <= k < i && 0 <= m < 6 ==> out@[6 * k + m] == #[trigger] self.data@[k].0@[m],
                    forall|m: int| 0 <= m < j ==> out@[6 * i + m] == e.0@[m],
                decreases 6 - j,
            {
                out.push(e.0[j]);
                j = j + 1;
            }
            i = i + 1;
        }
        out
    }
}

} // verus!
