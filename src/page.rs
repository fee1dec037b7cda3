//! Square RGBA pixel pages.
use vstd::prelude::*;

use crate::error::AtlasError;
use vstd::arithmetic::div_mod::{lemma_fundamental_div_mod, lemma_fundamental_div_mod_converse};

verus! {

/// The number of bytes of a `width` by `height` RGBA image.
pub open spec fn rgba_len(width: int, height: int) -> int {
    4 * (width * height)
}

/// The column of the pixel that byte `i` of a `size`-wide page belongs to.
pub open spec fn pixel_x(size: int, i: int) -> int {
    (i / 4) % size
}

/// The row of the pixel that byte `i` of a `size`-wide page belongs to.
pub open spec fn pixel_y(size: int, i: int) -> int {
    (i / 4) / size
}

/// Byte `i` of a `size`-wide page belongs to the `width` by `height` block
/// whose top left pixel is (`x`, `y`).
pub open spec fn in_block(size: int, x: int, y: int, width: int, height: int, i: int) -> bool {
    &&& x <= pixel_x(size, i) < x + width
    &&& y <= pixel_y(size, i) < y + height
}

/// The byte of a `width`-wide block image that lands on byte `i` of the page
/// when the block is placed at (`x`, `y`).
pub open spec fn block_byte(size: int, x: int, y: int, width: int, i: int) -> int {
    4 * ((pixel_y(size, i) - y) * width + (pixel_x(size, i) - x)) + i % 4
}

/// Of the block, the rows before `row` and the first `j` bytes of `row`.
spec fn copied(size: int, x: int, y: int, width: int, height: int, row: int, j: int, i: int) -> bool {
    &&& in_block(size, x, y, width, height, i)
    &&& (pixel_y(size, i) - y < row || (pixel_y(size, i) - y == row && 4 * (pixel_x(size, i) - x)
        + i % 4 < j))
}

/// A byte index splits into its pixel's row and column and its channel.
proof fn lemma_split_index(size: int, i: int)
    requires
        size > 0,
        0 <= i,
    ensures
        i == 4 * (pixel_y(size, i) * size + pixel_x(size, i)) + i % 4,
        0 <= pixel_x(size, i) < size,
        0 <= pixel_y(size, i),
        0 <= i % 4 < 4,
{
    lemma_fundamental_div_mod(i, 4);
    lemma_fundamental_div_mod(i / 4, size);
    assert(0 <= i / 4) by (nonlinear_arith)
        requires
            0 <= i,
    ;
    assert(pixel_y(size, i) * size == size * ((i / 4) / size)) by (nonlinear_arith);
}

/// Where byte `j` of block row `row` lands on the page.
proof fn lemma_target(size: int, x: int, y: int, width: int, row: int, j: int)
    requires
        size > 0,
        0 <= x,
        0 <= y,
        x + width <= size,
        0 <= row,
        0 <= j < 4 * width,
    ensures
        ({
            let d = 4 * ((y + row) * size + x) + j;
            &&& pixel_x(size, d) == x + j / 4
            &&& pixel_y(size, d) == y + row
            &&& d % 4 == j % 4
            &&& 4 * (pixel_x(size, d) - x) + d % 4 == j
            &&& block_byte(size, x, y, width, d) == 4 * row * width + j
        }),
{
    let d = 4 * ((y + row) * size + x) + j;
    lemma_fundamental_div_mod(j, 4);
    let q = (y + row) * size + (x + j / 4);
    assert(0 <= j / 4 < width) by (nonlinear_arith)
        requires
            0 <= j < 4 * width,
    ;
    assert(d == q * 4 + j % 4) by (nonlinear_arith)
        requires
            d == 4 * ((y + row) * size + x) + j,
            j == 4 * (j / 4) + j % 4,
            q == (y + row) * size + (x + j / 4),
    ;
    lemma_fundamental_div_mod_converse(d, 4, q, j % 4);
    assert(q == (y + row) * size + (x + j / 4));
    lemma_fundamental_div_mod_converse(q, size, y + row, x + j / 4);
    assert(4 * ((row) * width + (j / 4)) + j % 4 == 4 * row * width + j) by (nonlinear_arith)
        requires
            j == 4 * (j / 4) + j % 4,
    ;
}

/// A square page of RGBA pixels, stored row by row, four bytes per pixel.
#[derive(Clone, Debug)]
pub struct Page {
    size: u32,
    pixels: Vec<u8>,
}

impl Page {
    pub closed spec fn spec_size(&self) -> int {
        self.size as int
    }

    pub closed spec fn spec_pixels(&self) -> Seq<u8> {
        self.pixels@
    }

    /// The pixel buffer holds exactly `size * size` pixels.
    pub open spec fn wf(&self) -> bool {
        self.spec_pixels().len() == rgba_len(self.spec_size(), self.spec_size())
    }

    /// A fully transparent black page of `size` by `size` pixels.
    pub fn blank(size: u32) -> (r: Page)
        requires
            size < 8192,
        ensures
            r.wf(),
            r.spec_size() == size,
            forall|i: int| 0 <= i < r.spec_pixels().len() ==> r.spec_pixels()[i] == 0,
    {
        assert(4 * (size as int * size as int) < 0x1_0000_0000) by (nonlinear_arith)
            requires
                size < 8192,
        ;
        let n: usize = 4 * (size as usize * size as usize);
        let pixels: Vec<u8> = vec![0u8; n];
        Page { size, pixels }
    }

    /// A page made of a decoded RGBA image, which must be a square of
    /// `expected_size` pixels.
    ///
    /// Fails with `WrongPageSize` if the image has other dimensions, and
    /// with `PixelCount` if the buffer does not hold `width * height` pixels.
    pub fn from_rgba(index: u16, width: u32, height: u32, pixels: Vec<u8>, expected_size: u32) -> (r:
        Result<Page, AtlasError>)
        ensures
            (width != expected_size || height != expected_size) ==> r == Err::<Page, AtlasError>(
                AtlasError::WrongPageSize { index, width, height, expected: expected_size },
            ),
            (width == expected_size && height == expected_size && pixels@.len() != rgba_len(
                width as int,
                height as int,
            )) ==> r == Err::<Page, AtlasError>(AtlasError::PixelCount),
            r is Ok <==> (width == expected_size && height == expected_size && pixels@.len()
                == rgba_len(width as int, height as int)),
            r matches Ok(p) ==> p.wf() && p.spec_size() == expected_size && p.spec_pixels()
                == pixels@,
    {
        if width != expected_size || height != expected_size {
            return Err(AtlasError::WrongPageSize { index, width, height, expected: expected_size });
        }
        let w = width as u64;
        assert(4 * (w * w) <= 4 * (0xFFFF_FFFFu64 * 0xFFFF_FFFFu64)) by (nonlinear_arith)
            requires
                w <= 0xFFFF_FFFFu64,
        ;
        if pixels.len() as u128 != 4 * (w as u128 * w as u128) {
            return Err(AtlasError::PixelCount);
        }
        Ok(Page { size: width, pixels })
    }

    /// Copies a `width` by `height` RGBA image into the page with its top
    /// left pixel at (`x`, `y`).
    ///
    /// Fails with `PixelCount` if `src` does not hold `width * height`
    /// pixels, and with `OutOfBounds` if the block does not lie inside the
    /// page; the page is unchanged then.
    pub fn blit(&mut self, src: &[u8], width: u32, height: u32, x: u32, y: u32) -> (r: Result<
        (),
        AtlasError,
    >)
        requires
            old(self).wf(),
        ensures
            final(self).wf(),
            final(self).spec_size() == old(self).spec_size(),
            ({
                let size = old(self).spec_size();
                let before = old(self).spec_pixels();
                let after = final(self).spec_pixels();
                if src@.len() != rgba_len(width as int, height as int) {
                    r == Err::<(), AtlasError>(AtlasError::PixelCount) && after == before
                } else if x + width > size || y + height > size {
                    r == Err::<(), AtlasError>(AtlasError::OutOfBounds) && after == before
                } else {
                    &&& r is Ok
                    &&& after.len() == before.len()
                    &&& forall|i: int|
                        0 <= i < after.len() ==> #[trigger] after[i] == if in_block(
                            size,
                            x as int,
                            y as int,
                            width as int,
                            height as int,
                            i,
                        ) {
                            src@[block_byte(size, x as int, y as int, width as int, i)]
                        } else {
                            before[i]
                        }
                }
            }),
    {
        let (w, h) = (width as u64, height as u64);
        assert(w * h <= 0xFFFF_FFFFu64 * 0xFFFF_FFFFu64) by (nonlinear_arith)
            requires
                w <= 0xFFFF_FFFFu64,
                h <= 0xFFFF_FFFFu64,
        ;
        if src.len() as u128 != 4 * (w as u128 * h as u128) {
            return Err(AtlasError::PixelCount);
        }
        if x as u64 + w > self.size as u64 || y as u64 + h > self.size as u64 {
            return Err(AtlasError::OutOfBounds);
        }
        let ghost before = self.pixels@;
        let ghost sz = self.size as int;
        let ghost (gx, gy, gw, gh) = (x as int, y as int, width as int, height as int);
        let size = self.size as usize;
        let total = self.pixels.len();
        let src_len = src.len();
        assert(4 * gw <= before.len()) by (nonlinear_arith)
            requires
                0 <= gw,
                gx + gw <= sz,
                0 <= gx,
                before.len() == 4 * (sz * sz),
        ;
        let row_len = 4 * (width as usize);
        let mut row: usize = 0;
        while row < height as usize
            invariant
                sz == self.size,
                size == sz,
                self.size == old(self).size,
                before == old(self).pixels@,
                before.len() == 4 * (sz * sz),
                total == before.len(),
                src_len == src@.len(),
                self.pixels@.len() == before.len(),
                gx + gw <= sz,
                gy + gh <= sz,
                src@.len() == 4 * (gw * gh),
                row_len == 4 * gw,
                row <= gh,
                (gx, gy, gw, gh) == (x as int, y as int, width as int, height as int),
                forall|i: int|
                    0 <= i < self.pixels@.len() ==> #[trigger] self.pixels@[i] == if copied(
                        sz,
                        gx,
                        gy,
                        gw,
                        gh,
                        row as int,
                        0,
                        i,
                    ) {
                        src@[block_byte(sz, gx, gy, gw, i)]
                    } else {
                        before[i]
                    },
            decreases gh - row,
        {
            let mut j: usize = 0;
            while j < row_len
                invariant
                    sz == self.size,
                    size == sz,
                    self.size == old(self).size,
                    before == old(self).pixels@,
                    before.len() == 4 * (sz * sz),
                    total == before.len(),
                    src_len == src@.len(),
                    self.pixels@.len() == before.len(),
                    gx + gw <= sz,
                    gy + gh <= sz,
                    src@.len() == 4 * (gw * gh),
                    row_len == 4 * gw,
                    row < gh,
                    j <= row_len,
                    (gx, gy, gw, gh) == (x as int, y as int, width as int, height as int),
                    forall|i: int|
                        0 <= i < self.pixels@.len() ==> #[trigger] self.pixels@[i] == if copied(
                            sz,
                            gx,
                            gy,
                            gw,
                            gh,
                            row as int,
                            j as int,
                            i,
                        ) {
                            src@[block_byte(sz, gx, gy, gw, i)]
                        } else {
                            before[i]
                        },
                decreases row_len - j,
            {
                let ghost (r0, j0) = (row as int, j as int);
                proof {
                    lemma_target(sz, gx, gy, gw, r0, j0);
                    assert((gy + r0) * sz + gx + j0 / 4 < sz * sz) by (nonlinear_arith)
                        requires
                            gy + r0 < sz,
                            gx + j0 / 4 < sz,
                            0 <= gx,
                            0 <= gy,
                            0 <= r0,
                            0 <= j0 / 4,
                    ;
                    assert((gy + r0) * sz <= (gy + r0) * sz + gx + j0 / 4);
                    assert(4 * ((gy + r0) * sz + gx) + j0 < 4 * (sz * sz)) by (nonlinear_arith)
                        requires
                            gy + r0 < sz,
                            gx + j0 / 4 < sz,
                            0 <= j0 % 4 < 4,
                            j0 == 4 * (j0 / 4) + j0 % 4,
                            0 <= gx,
                            0 <= gy,
                            0 <= r0,
                    ;
                    assert(gw * (r0 + 1) <= gw * gh) by (nonlinear_arith)
                        requires
                            r0 + 1 <= gh,
                            0 <= gw,
                    ;
                    assert(4 * r0 * gw + j0 < 4 * (gw * gh)) by (nonlinear_arith)
                        requires
                            gw * (r0 + 1) <= gw * gh,
                            j0 < 4 * gw,
                            0 <= r0,
                    ;
                    lemma_fundamental_div_mod(j0, 4);
                    assert(4 * r0 <= 4 * r0 * gw) by (nonlinear_arith)
                        requires
                            gw >= 1,
                            r0 >= 0,
                    ;
                }
                let d = 4 * ((y as usize + row) * size + x as usize) + j;
                let s = 4 * row * (width as usize) + j;
                let ghost prev = self.pixels@;
                self.pixels.set(d, src[s]);
                proof {
                    assert forall|i: int| 0 <= i < self.pixels@.len() implies #[trigger] self.pixels@[i]
                        == if copied(sz, gx, gy, gw, gh, r0, j0 + 1, i) {
                        src@[block_byte(sz, gx, gy, gw, i)]
                    } else {
                        before[i]
                    } by {
                        if i != d {
                            lemma_split_index(sz, i);
                            assert(prev[i] == self.pixels@[i]);
                            if copied(sz, gx, gy, gw, gh, r0, j0 + 1, i) != copied(
                                sz,
                                gx,
                                gy,
                                gw,
                                gh,
                                r0,
                                j0,
                                i,
                            ) {
                                let px = pixel_x(sz, i);
                                let py = pixel_y(sz, i);
                                assert(py == gy + r0);
                                assert(4 * (px - gx) + i % 4 == j0);
                                lemma_fundamental_div_mod_converse(j0, 4, px - gx, i % 4);
                                assert(i == 4 * ((gy + r0) * sz + gx) + j0) by (nonlinear_arith)
                                    requires
                                        i == 4 * (py * sz + px) + i % 4,
                                        py == gy + r0,
                                        j0 == 4 * (px - gx) + i % 4,
                                ;
                            }
                        }
                    }
                }
                j = j + 1;
            }
            proof {
                assert forall|i: int| 0 <= i < self.pixels@.len() implies copied(
                    sz,
                    gx,
                    gy,
                    gw,
                    gh,
                    row as int,
                    row_len as int,
                    i,
                ) == copied(sz, gx, gy, gw, gh, row as int + 1, 0, i) by {
                    lemma_split_index(sz, i);
                }
            }
            row = row + 1;
        }
        proof {
            assert forall|i: int| 0 <= i < self.pixels@.len() implies copied(
                sz,
                gx,
                gy,
                gw,
                gh,
                gh,
                0,
                i,
            ) == in_block(sz, gx, gy, gw, gh, i) by {}
        }
        Ok(())
    }

    /// The side length in pixels.
    pub fn size(&self) -> (r: u32)
        ensures
            r == self.spec_size(),
    {
        self.size
    }

    /// The pixel bytes, row by row.
    pub fn pixels(&self) -> (r: &Vec<u8>)
        ensures
            r@ == self.spec_pixels(),
    {
        &self.pixels
    }

    /// Gives up the page, returning its pixel bytes.
    pub fn into_pixels(self) -> (r: Vec<u8>)
        ensures
            r@ == self.spec_pixels(),
    {
        self.pixels
    }
}

} // verus!
