//! Glyph atlases and the guillotine packer that builds them.
use vstd::prelude::*;

use crate::error::AtlasError;
use crate::location::{Location, COORD_LIMIT, PAGE_LIMIT};
use crate::page::Page;

verus! {

broadcast use Location::lemma_from_bits;

/// `l` lies inside a `page_size` square on one of the first `num_pages` pages.
pub open spec fn within_pages(l: Location, page_size: int, num_pages: int) -> bool {
    &&& 0 <= l.spec_page() < num_pages
    &&& l.spec_x() + l.spec_width() <= page_size
    &&& l.spec_y() + l.spec_height() <= page_size
}

/// The rectangles of `a` and `b` share a pixel on the same page.
pub open spec fn overlaps(a: Location, b: Location) -> bool {
    &&& a.spec_page() == b.spec_page()
    &&& a.spec_x() < b.spec_x() + b.spec_width()
    &&& b.spec_x() < a.spec_x() + a.spec_width()
    &&& a.spec_y() < b.spec_y() + b.spec_height()
    &&& b.spec_y() < a.spec_y() + a.spec_height()
}

/// Every entry that is neither the sentinel nor the all-zero location lies
/// inside one of the pages.
pub open spec fn all_contained(locs: Seq<Location>, page_size: int, num_pages: int) -> bool {
    forall|i: int|
        0 <= i < locs.len() && !(#[trigger] locs[i]).is_invalid() && !locs[i].is_zero()
            ==> within_pages(locs[i], page_size, num_pages)
}

/// No two assigned entries overlap.
pub open spec fn no_overlap(locs: Seq<Location>) -> bool {
    forall|i: int, j: int|
        0 <= i < locs.len() && 0 <= j < locs.len() && i != j && !(#[trigger] locs[i]).is_invalid()
            && !(#[trigger] locs[j]).is_invalid() ==> !overlaps(locs[i], locs[j])
}

/// The free rectangles lie inside the pages and do not overlap each other.
pub open spec fn spaces_ok(spaces: Seq<Location>, page_size: int, num_pages: int) -> bool {
    &&& forall|k: int| 0 <= k < spaces.len() ==> within_pages(#[trigger] spaces[k], page_size, num_pages)
    &&& forall|k: int, m: int|
        0 <= k < spaces.len() && 0 <= m < spaces.len() && k != m ==> !overlaps(
            #[trigger] spaces[k],
            #[trigger] spaces[m],
        )
}

/// No free rectangle overlaps an assigned entry.
pub open spec fn spaces_apart(spaces: Seq<Location>, locs: Seq<Location>) -> bool {
    forall|k: int, i: int|
        0 <= k < spaces.len() && 0 <= i < locs.len() && !(#[trigger] locs[i]).is_invalid()
            ==> !overlaps(#[trigger] spaces[k], locs[i])
}

/// A free rectangle that can hold a `width` by `height` request.
pub open spec fn admits(s: Location, width: int, height: int) -> bool {
    s.spec_width() >= width && s.spec_height() >= height
}

/// The index of the last free rectangle that admits the request, or -1.
pub open spec fn last_fit(spaces: Seq<Location>, width: int, height: int) -> int
    decreases spaces.len(),
{
    if spaces.len() == 0 {
        -1
    } else if admits(spaces.last(), width, height) {
        spaces.len() - 1
    } else {
        last_fit(spaces.drop_last(), width, height)
    }
}

/// The free rectangles after the one at `k` took a `width` by `height`
/// request: it is swap-removed, then the strip below the request and the
/// strip to its right are appended, where they are not empty.
pub open spec fn split_spaces(spaces: Seq<Location>, k: int, width: int, height: int) -> Seq<
    Location,
> {
    let f = spaces[k];
    let rest = spaces.update(k, spaces.last()).drop_last();
    let below = Location::spec_new(
        f.spec_x(),
        f.spec_y() + height,
        f.spec_width(),
        f.spec_height() - height,
        f.spec_page(),
    );
    let right = Location::spec_new(
        f.spec_x() + width,
        f.spec_y(),
        f.spec_width() - width,
        height,
        f.spec_page(),
    );
    let with_below = if f.spec_height() > height {
        rest.push(below)
    } else {
        rest
    };
    if f.spec_width() > width {
        with_below.push(right)
    } else {
        with_below
    }
}

/// `locs` with entry `id` set to `l`, first growing it with sentinels.
pub open spec fn with_entry(locs: Seq<Location>, id: int, l: Location) -> Seq<Location> {
    Seq::new(
        if id < locs.len() {
            locs.len()
        } else {
            (id + 1) as nat
        },
        |i: int|
            if i == id {
                l
            } else if i < locs.len() {
                locs[i]
            } else {
                Location::spec_invalid()
            },
    )
}

/// `last_fit` gives -1 or the index of a free rectangle that admits the request.
proof fn lemma_last_fit(spaces: Seq<Location>, width: int, height: int)
    ensures
        -1 <= last_fit(spaces, width, height) < spaces.len(),
        last_fit(spaces, width, height) >= 0 ==> admits(
            spaces[last_fit(spaces, width, height)],
            width,
            height,
        ),
    decreases spaces.len(),
{
    if spaces.len() > 0 && !admits(spaces.last(), width, height) {
        lemma_last_fit(spaces.drop_last(), width, height);
    }
}

/// `s` lies within `f`, on the same page.
pub open spec fn sub_rect(s: Location, f: Location) -> bool {
    &&& s.spec_page() == f.spec_page()
    &&& f.spec_x() <= s.spec_x()
    &&& s.spec_x() + s.spec_width() <= f.spec_x() + f.spec_width()
    &&& f.spec_y() <= s.spec_y()
    &&& s.spec_y() + s.spec_height() <= f.spec_y() + f.spec_height()
}

/// Taking a request out of the free rectangle at `k` keeps the free list
/// well formed, and the request lies inside the pages, away from every free
/// rectangle that is left and from every assigned entry.
proof fn lemma_split(
    spaces: Seq<Location>,
    locs: Seq<Location>,
    k: int,
    width: int,
    height: int,
    page_size: int,
    num_pages: int,
)
    requires
        spaces_ok(spaces, page_size, num_pages),
        spaces_apart(spaces, locs),
        0 <= k < spaces.len(),
        admits(spaces[k], width, height),
        0 <= width,
        0 <= height,
        width > 0 || height > 0,
        page_size < COORD_LIMIT,
        num_pages <= PAGE_LIMIT,
    ensures
        ({
            let f = spaces[k];
            let placed = Location::spec_new(f.spec_x(), f.spec_y(), width, height, f.spec_page());
            let after = split_spaces(spaces, k, width, height);
            &&& placed.spec_x() == f.spec_x()
            &&& placed.spec_y() == f.spec_y()
            &&& placed.spec_width() == width
            &&& placed.spec_height() == height
            &&& placed.spec_page() == f.spec_page()
            &&& within_pages(placed, page_size, num_pages)
            &&& !placed.is_invalid()
            &&& !placed.is_zero()
            &&& spaces_ok(after, page_size, num_pages)
            &&& spaces_apart(after, locs)
            &&& forall|m: int| 0 <= m < after.len() ==> !overlaps(#[trigger] after[m], placed)
            &&& forall|i: int|
                0 <= i < locs.len() && !(#[trigger] locs[i]).is_invalid() ==> !overlaps(placed, locs[i])
        }),
{
    let f = spaces[k];
    let last = spaces.len() - 1;
    assert(within_pages(f, page_size, num_pages));
    let placed = Location::spec_new(f.spec_x(), f.spec_y(), width, height, f.spec_page());
    Location::lemma_pack_fields(f.spec_x(), f.spec_y(), width, height, f.spec_page());
    let below = Location::spec_new(
        f.spec_x(),
        f.spec_y() + height,
        f.spec_width(),
        f.spec_height() - height,
        f.spec_page(),
    );
    let right = Location::spec_new(
        f.spec_x() + width,
        f.spec_y(),
        f.spec_width() - width,
        height,
        f.spec_page(),
    );
    if f.spec_height() > height {
        Location::lemma_pack_fields(
            f.spec_x(),
            f.spec_y() + height,
            f.spec_width(),
            f.spec_height() - height,
            f.spec_page(),
        );
    }
    if f.spec_width() > width {
        Location::lemma_pack_fields(
            f.spec_x() + width,
            f.spec_y(),
            f.spec_width() - width,
            height,
            f.spec_page(),
        );
    }
    if placed.is_invalid() {
        placed.lemma_invalid_fields();
    }
    assert(!placed.is_zero()) by {
        if placed.is_zero() {
            placed.lemma_zero_fields();
        }
    }
    let rest = spaces.update(k, spaces.last()).drop_last();
    let after = split_spaces(spaces, k, width, height);
    assert(sub_rect(placed, f));
    assert(f.spec_height() > height ==> sub_rect(below, f) && !overlaps(below, placed));
    assert(f.spec_width() > width ==> sub_rect(right, f) && !overlaps(right, placed));
    assert(f.spec_height() > height && f.spec_width() > width ==> !overlaps(below, right));
    // Each element of `after` is a free rectangle other than `f`, or lies within `f`.
    assert forall|m: int| 0 <= m < after.len() implies ({
        ||| (m < rest.len() && after[m] == spaces[if m == k { last } else { m }])
        ||| (m >= rest.len() && sub_rect(after[m], f) && !overlaps(after[m], placed))
    }) by {}
    assert forall|m: int| 0 <= m < after.len() implies within_pages(
        #[trigger] after[m],
        page_size,
        num_pages,
    ) by {
        if m < rest.len() {
            assert(within_pages(spaces[if m == k { last } else { m }], page_size, num_pages));
        }
    }
    assert forall|a: int, b: int|
        0 <= a < after.len() && 0 <= b < after.len() && a != b implies !overlaps(
        #[trigger] after[a],
        #[trigger] after[b],
    ) by {
        let oa = if a == k { last } else { a };
        let ob = if b == k { last } else { b };
        if a < rest.len() && b < rest.len() {
            assert(!overlaps(spaces[oa], spaces[ob]));
        } else if a < rest.len() {
            assert(!overlaps(spaces[oa], f));
        } else if b < rest.len() {
            assert(!overlaps(spaces[ob], f));
        }
    }
    assert forall|m: int, i: int|
        0 <= m < after.len() && 0 <= i < locs.len() && !(#[trigger] locs[i]).is_invalid()
            implies !overlaps(#[trigger] after[m], locs[i]) by {
        assert(!overlaps(f, locs[i]));
        if m < rest.len() {
            assert(!overlaps(spaces[if m == k { last } else { m }], locs[i]));
        }
    }
    assert forall|i: int| 0 <= i < locs.len() && !(#[trigger] locs[i]).is_invalid() implies !overlaps(
        placed,
        locs[i],
    ) by {
        assert(!overlaps(f, locs[i]));
    }
    assert forall|m: int| 0 <= m < after.len() implies !overlaps(#[trigger] after[m], placed) by {
        if m < rest.len() {
            assert(!overlaps(spaces[if m == k { last } else { m }], f));
        }
    }
}

/// Recording a location that lies inside the pages and away from every free
/// rectangle and every assigned entry, under an id that had none, keeps the
/// table packed and apart from the free rectangles.
proof fn lemma_record(
    locs: Seq<Location>,
    spaces: Seq<Location>,
    id: int,
    placed: Location,
    page_size: int,
    num_pages: int,
)
    requires
        all_contained(locs, page_size, num_pages),
        no_overlap(locs),
        spaces_apart(spaces, locs),
        0 <= id,
        !(id < locs.len() && !locs[id].is_invalid()),
        !placed.is_invalid(),
        placed.is_zero() || within_pages(placed, page_size, num_pages),
        forall|m: int| 0 <= m < spaces.len() ==> !overlaps(#[trigger] spaces[m], placed),
        forall|i: int|
            0 <= i < locs.len() && !(#[trigger] locs[i]).is_invalid() ==> !overlaps(placed, locs[i]),
    ensures
        all_contained(with_entry(locs, id, placed), page_size, num_pages),
        no_overlap(with_entry(locs, id, placed)),
        spaces_apart(spaces, with_entry(locs, id, placed)),
{
    let t = with_entry(locs, id, placed);
    Location::spec_invalid().lemma_invalid_fields();
    assert forall|i: int| 0 <= i < t.len() && !(#[trigger] t[i]).is_invalid() implies (i == id
        && t[i] == placed) || (i < locs.len() && t[i] == locs[i] && !locs[i].is_invalid()) by {}
    assert forall|i: int, j: int|
        0 <= i < t.len() && 0 <= j < t.len() && i != j && !(#[trigger] t[i]).is_invalid()
            && !(#[trigger] t[j]).is_invalid() implies !overlaps(t[i], t[j]) by {
        if i != id && j != id {
            assert(!overlaps(locs[i], locs[j]));
        } else if i == id {
            assert(!overlaps(placed, locs[j]));
        } else {
            assert(!overlaps(placed, locs[i]));
        }
    }
    assert forall|k: int, i: int|
        0 <= k < spaces.len() && 0 <= i < t.len() && !(#[trigger] t[i]).is_invalid() implies !overlaps(
        #[trigger] spaces[k],
        t[i],
    ) by {
        if i != id {
            assert(!overlaps(spaces[k], locs[i]));
        } else {
            assert(!overlaps(spaces[k], placed));
        }
    }
}

/// A page of `size` by `size` pixels, all zero.
pub open spec fn is_blank(p: Page, size: int) -> bool {
    &&& p.wf()
    &&& p.spec_size() == size
    &&& forall|i: int| 0 <= i < p.spec_pixels().len() ==> p.spec_pixels()[i] == 0
}

/// An immutable atlas of glyphs: pages of pixels and a location per glyph id.
#[derive(Clone, Debug)]
pub struct Atlas {
    pages: Vec<Page>,
    locations: Vec<Location>,
}

impl Atlas {
    pub closed spec fn spec_pages(&self) -> Seq<Page> {
        self.pages@
    }

    pub closed spec fn spec_locations(&self) -> Seq<Location> {
        self.locations@
    }

    /// The assigned rectangles lie inside `page_size` square pages of this
    /// atlas and do not overlap.
    pub open spec fn packed_within(&self, page_size: int) -> bool {
        &&& all_contained(self.spec_locations(), page_size, self.spec_pages().len() as int)
        &&& no_overlap(self.spec_locations())
    }

    /// Starts building an atlas of `page_size` by `page_size` pages.
    pub fn builder(page_size: u32) -> (r: AtlasBuilder)
        requires
            page_size < COORD_LIMIT,
        ensures
            r.wf(),
            r.spec_page_size() == page_size,
            r.spec_atlas().spec_pages().len() == 0,
            r.spec_atlas().spec_locations().len() == 0,
            r.spec_spaces().len() == 0,
    {
        AtlasBuilder {
            atlas: Atlas { pages: Vec::new(), locations: Vec::new() },
            spaces: Vec::new(),
            page_size,
        }
    }

    /// The location of a glyph, if the table reaches its id.
    pub fn glyph_location(&self, glyph_id: u16) -> (r: Option<Location>)
        ensures
            r == (if (glyph_id as int) < self.spec_locations().len() {
                Some(self.spec_locations()[glyph_id as int])
            } else {
                None
            }),
    {
        let id = glyph_id as usize;
        if id < self.locations.len() {
            Some(self.locations[id])
        } else {
            None
        }
    }

    /// The whole location table, indexed by glyph id.
    pub fn glyph_locations(&self) -> (r: &[Location])
        ensures
            r@ == self.spec_locations(),
    {
        self.locations.as_slice()
    }

    /// How many pages the atlas holds.
    pub fn num_pages(&self) -> (r: usize)
        ensures
            r == self.spec_pages().len(),
    {
        self.pages.len()
    }

    /// An atlas made of a location table and pages, as read back from a cache.
    pub fn from_parts(locations: Vec<Location>, pages: Vec<Page>) -> (r: Atlas)
        ensures
            r.spec_locations() == locations@,
            r.spec_pages() == pages@,
    {
        Atlas { pages, locations }
    }

    /// The page at `index`, if there is one.
    pub fn page(&self, index: usize) -> (r: Option<&Page>)
        ensures
            r == (if (index as int) < self.spec_pages().len() {
                Some(&self.spec_pages()[index as int])
            } else {
                None
            }),
    {
        if index < self.pages.len() {
            Some(&self.pages[index])
        } else {
            None
        }
    }
}

/// Builds an atlas by packing glyph rectangles into pages.
pub struct AtlasBuilder {
    atlas: Atlas,
    spaces: Vec<Location>,
    page_size: u32,
}

impl AtlasBuilder {
    pub closed spec fn spec_atlas(&self) -> Atlas {
        self.atlas
    }

    /// The free rectangles, in the order in which they are searched from the end.
    pub closed spec fn spec_spaces(&self) -> Seq<Location> {
        self.spaces@
    }

    pub closed spec fn spec_page_size(&self) -> int {
        self.page_size as int
    }

    /// The packing invariant: the recorded glyphs lie inside the pages and do
    /// not overlap, and neither do the free rectangles, with each other or
    /// with a glyph. `Atlas::builder` sets it up and `insert` keeps it.
    pub open spec fn wf(&self) -> bool {
        let locs = self.spec_atlas().spec_locations();
        let n = self.spec_atlas().spec_pages().len() as int;
        &&& self.spec_page_size() < COORD_LIMIT
        &&& n <= PAGE_LIMIT
        &&& self.spec_atlas().packed_within(self.spec_page_size())
        &&& spaces_ok(self.spec_spaces(), self.spec_page_size(), n)
        &&& spaces_apart(self.spec_spaces(), locs)
    }

    /// Places a `width` by `height` request in the last free rectangle that
    /// admits it, splitting what is left of that rectangle.
    fn try_insert(&mut self, width: u32, height: u32) -> (r: Option<Location>)
        requires
            spaces_ok(
                old(self).spec_spaces(),
                old(self).spec_page_size(),
                old(self).spec_atlas().spec_pages().len() as int,
            ),
            old(self).spec_page_size() < COORD_LIMIT,
            old(self).spec_atlas().spec_pages().len() <= PAGE_LIMIT,
        ensures
            final(self).spec_atlas() == old(self).spec_atlas(),
            final(self).spec_page_size() == old(self).spec_page_size(),
            ({
                let k = last_fit(old(self).spec_spaces(), width as int, height as int);
                let f = old(self).spec_spaces()[k];
                if k < 0 {
                    r is None && final(self).spec_spaces() == old(self).spec_spaces()
                } else {
                    &&& r == Some(
                        Location::spec_new(
                            f.spec_x(),
                            f.spec_y(),
                            width as int,
                            height as int,
                            f.spec_page(),
                        ),
                    )
                    &&& final(self).spec_spaces() == split_spaces(
                        old(self).spec_spaces(),
                        k,
                        width as int,
                        height as int,
                    )
                }
            }),
    {
        let ghost s0 = self.spaces@;
        let ghost n = self.atlas.pages@.len() as int;
        let mut i: usize = self.spaces.len();
        assert(s0.subrange(0, i as int) =~= s0);
        while i > 0
            invariant
                self.spaces@ == s0,
                self.atlas == old(self).atlas,
                self.page_size == old(self).page_size,
                s0 == old(self).spaces@,
                spaces_ok(s0, self.page_size as int, n),
                n == self.atlas.pages@.len(),
                self.page_size < COORD_LIMIT,
                i <= s0.len(),
                last_fit(s0, width as int, height as int) == last_fit(
                    s0.subrange(0, i as int),
                    width as int,
                    height as int,
                ),
            decreases i,
        {
            i = i - 1;
            let space = self.spaces[i];
            assert(s0.subrange(0, i + 1 as int).drop_last() =~= s0.subrange(0, i as int));
            if space.width() < width || space.height() < height {
                continue;
            }
            assert(within_pages(space, self.page_size as int, n));
            self.spaces.swap_remove(i);
            if space.height() > height {
                self.spaces.push(
                    Location::new(
                        space.x(),
                        space.y() + height,
                        space.width(),
                        space.height() - height,
                        space.page_index(),
                    ),
                );
            }
            if space.width() > width {
                self.spaces.push(
                    Location::new(
                        space.x() + width,
                        space.y(),
                        space.width() - width,
                        height,
                        space.page_index(),
                    ),
                );
            }
            return Some(Location::new(space.x(), space.y(), width, height, space.page_index()));
        }
        None
    }

    /// Appends a blank page, whose whole area becomes a free rectangle.
    fn add_new_page(&mut self)
        requires
            old(self).wf(),
            old(self).spec_atlas().spec_pages().len() < PAGE_LIMIT,
        ensures
            final(self).wf(),
            final(self).spec_page_size() == old(self).spec_page_size(),
            final(self).spec_atlas().spec_locations() == old(self).spec_atlas().spec_locations(),
            final(self).spec_atlas().spec_pages().drop_last() == old(
                self,
            ).spec_atlas().spec_pages(),
            final(self).spec_atlas().spec_pages().len() == old(self).spec_atlas().spec_pages().len()
                + 1,
            is_blank(final(self).spec_atlas().spec_pages().last(), old(self).spec_page_size()),
            final(self).spec_spaces() == old(self).spec_spaces().push(
                Location::spec_new(
                    0,
                    0,
                    old(self).spec_page_size(),
                    old(self).spec_page_size(),
                    old(self).spec_atlas().spec_pages().len() as int,
                ),
            ),
    {
        let index = self.atlas.pages.len();
        let ghost ps = self.page_size as int;
        let ghost s0 = self.spaces@;
        let ghost locs = self.atlas.locations@;
        self.atlas.pages.push(Page::blank(self.page_size));
        let full = Location::new(0, 0, self.page_size, self.page_size, index as u32);
        self.spaces.push(full);
        assert(self.atlas.pages@.drop_last() =~= old(self).atlas.pages@);
        let ghost n = index as int + 1;
        assert forall|k: int| 0 <= k < self.spaces@.len() implies within_pages(
            #[trigger] self.spaces@[k],
            ps,
            n,
        ) by {
            if k < s0.len() {
                assert(within_pages(s0[k], ps, n - 1));
            }
        }
        assert forall|k: int, m: int|
            0 <= k < self.spaces@.len() && 0 <= m < self.spaces@.len() && k != m implies !overlaps(
            #[trigger] self.spaces@[k],
            #[trigger] self.spaces@[m],
        ) by {
            if k < s0.len() {
                assert(within_pages(s0[k], ps, n - 1));
            }
            if m < s0.len() {
                assert(within_pages(s0[m], ps, n - 1));
            }
        }
        assert forall|k: int, i: int|
            0 <= k < self.spaces@.len() && 0 <= i < locs.len() && !(#[trigger] locs[i]).is_invalid()
                implies !overlaps(#[trigger] self.spaces@[k], locs[i]) by {
            if k == s0.len() {
                if locs[i].is_zero() {
                    locs[i].lemma_zero_fields();
                } else {
                    assert(within_pages(locs[i], ps, n - 1));
                }
            }
        }
    }

    /// Sets the table entry of `id` to `l`, growing the table with sentinels.
    fn record(&mut self, id: usize, l: Location)
        requires
            id < 0x1_0000,
        ensures
            final(self).spec_atlas().spec_locations() == with_entry(
                old(self).spec_atlas().spec_locations(),
                id as int,
                l,
            ),
            final(self).spec_atlas().spec_pages() == old(self).spec_atlas().spec_pages(),
            final(self).spec_spaces() == old(self).spec_spaces(),
            final(self).spec_page_size() == old(self).spec_page_size(),
    {
        let ghost l0 = self.atlas.locations@;
        while self.atlas.locations.len() <= id
            invariant
                self.atlas.pages == old(self).atlas.pages,
                self.spaces == old(self).spaces,
                self.page_size == old(self).page_size,
                l0 == old(self).atlas.locations@,
                id < 0x1_0000,
                self.atlas.locations@.len() >= l0.len(),
                self.atlas.locations@.len() <= id + 1 || self.atlas.locations@.len() == l0.len(),
                forall|i: int|
                    0 <= i < self.atlas.locations@.len() ==> #[trigger] self.atlas.locations@[i]
                        == if i < l0.len() {
                        l0[i]
                    } else {
                        Location::spec_invalid()
                    },
            decreases id + 1 - self.atlas.locations@.len(),
        {
            self.atlas.locations.push(Location::invalid());
        }
        self.atlas.locations.set(id, l);
        assert(self.atlas.locations@ =~= with_entry(l0, id as int, l));
    }

    /// `self` holds the same table, pages, free rectangles and page size as `other`.
    pub open spec fn same_as(&self, other: &AtlasBuilder) -> bool {
        &&& self.spec_atlas().spec_locations() == other.spec_atlas().spec_locations()
        &&& self.spec_atlas().spec_pages() == other.spec_atlas().spec_pages()
        &&& self.spec_spaces() == other.spec_spaces()
        &&& self.spec_page_size() == other.spec_page_size()
    }

    /// The glyph `glyph_id` already has a location.
    pub open spec fn has_entry(&self, glyph_id: int) -> bool {
        let locs = self.spec_atlas().spec_locations();
        glyph_id < locs.len() && !locs[glyph_id].is_invalid()
    }

    /// Reserves room for a `width + additional_margin` by
    /// `height + additional_margin` rectangle and records it under `glyph_id`.
    /// Returns the glyph's visible rectangle, without the margin.
    ///
    /// Fails with `TooLarge` if the reserved rectangle is as wide or as high
    /// as a page, and with `DuplicateGlyph` if the glyph has a location. A
    /// glyph of zero width and height takes no room and gets the all-zero
    /// location. Otherwise the last free rectangle that admits the request is
    /// split; if none does, a new page is added, or `OutOfPages` is returned
    /// when there are already as many pages as locations can address.
    pub fn insert(&mut self, glyph_id: u16, width: u32, height: u32, additional_margin: u32) -> (r:
        Result<Location, AtlasError>)
        requires
            old(self).wf(),
        ensures
            final(self).wf(),
            final(self).spec_page_size() == old(self).spec_page_size(),
            r is Ok ==> final(self).has_entry(glyph_id as int),
            // A glyph without area takes no room.
            width == 0 && height == 0 ==> final(self).spec_atlas().spec_pages() == old(
                self,
            ).spec_atlas().spec_pages() && final(self).spec_spaces() == old(self).spec_spaces() && (
            r is Ok ==> r == Ok::<Location, AtlasError>(Location::spec_zero())),
            // A glyph that has a location is refused, and nothing changes.
            old(self).has_entry(glyph_id as int) ==> r is Err && final(self).same_as(old(self)),
            // A request as wide or as high as a page is refused, and nothing changes.
            width + additional_margin >= old(self).spec_page_size() || height + additional_margin
                >= old(self).spec_page_size() ==> r is Err && final(self).same_as(old(self)),
            ({
                let ps = old(self).spec_page_size();
                let tw = width + additional_margin;
                let th = height + additional_margin;
                let id = glyph_id as int;
                let locs = old(self).spec_atlas().spec_locations();
                let pages = old(self).spec_atlas().spec_pages();
                let spaces = old(self).spec_spaces();
                let k = last_fit(spaces, tw, th);
                let n = pages.len() as int;
                let fresh = spaces.push(Location::spec_new(0, 0, ps, ps, n));
                if tw >= ps || th >= ps {
                    &&& r == Err::<Location, AtlasError>(
                        AtlasError::TooLarge { width, height, page_size: ps as u32 },
                    )
                    &&& final(self).same_as(old(self))
                } else if old(self).has_entry(id) {
                    &&& r == Err::<Location, AtlasError>(AtlasError::DuplicateGlyph { glyph_id })
                    &&& final(self).same_as(old(self))
                } else if width == 0 && height == 0 {
                    &&& r == Ok::<Location, AtlasError>(Location::spec_zero())
                    &&& final(self).spec_atlas().spec_locations() == with_entry(
                        locs,
                        id,
                        Location::spec_zero(),
                    )
                    &&& final(self).spec_atlas().spec_pages() == pages
                    &&& final(self).spec_spaces() == spaces
                } else if k >= 0 {
                    let f = spaces[k];
                    &&& r == Ok::<Location, AtlasError>(
                        Location::spec_new(f.spec_x(), f.spec_y(), width as int, height as int, f.spec_page()),
                    )
                    &&& final(self).spec_atlas().spec_locations() == with_entry(
                        locs,
                        id,
                        Location::spec_new(f.spec_x(), f.spec_y(), tw, th, f.spec_page()),
                    )
                    &&& final(self).spec_atlas().spec_pages() == pages
                    &&& final(self).spec_spaces() == split_spaces(spaces, k, tw, th)
                } else if n >= PAGE_LIMIT {
                    &&& r == Err::<Location, AtlasError>(AtlasError::OutOfPages)
                    &&& final(self).same_as(old(self))
                } else {
                    &&& r == Ok::<Location, AtlasError>(
                        Location::spec_new(0, 0, width as int, height as int, n),
                    )
                    &&& final(self).spec_atlas().spec_locations() == with_entry(
                        locs,
                        id,
                        Location::spec_new(0, 0, tw, th, n),
                    )
                    &&& final(self).spec_atlas().spec_pages().len() == n + 1
                    &&& final(self).spec_atlas().spec_pages().drop_last() == pages
                    &&& is_blank(final(self).spec_atlas().spec_pages().last(), ps)
                    &&& final(self).spec_spaces() == split_spaces(fresh, fresh.len() - 1, tw, th)
                }
            }),
    {
        let total_width: u64 = width as u64 + additional_margin as u64;
        let total_height: u64 = height as u64 + additional_margin as u64;
        if total_width >= self.page_size as u64 || total_height >= self.page_size as u64 {
            return Err(AtlasError::TooLarge { width, height, page_size: self.page_size });
        }
        let id = glyph_id as usize;
        if id < self.atlas.locations.len() && !self.atlas.locations[id].is_invalid_location() {
            return Err(AtlasError::DuplicateGlyph { glyph_id });
        }
        let ghost ps = self.page_size as int;
        if width == 0 && height == 0 {
            let zero = Location::zero();
            proof {
                let locs = self.atlas.locations@;
                let spaces = self.spaces@;
                zero.lemma_zero_fields();
                lemma_record(locs, spaces, id as int, zero, ps, self.atlas.pages@.len() as int);
            }
            self.record(id, zero);
            return Ok(zero);
        }
        let tw = total_width as u32;
        let th = total_height as u32;
        let ghost mut pre: Seq<Location> = self.spaces@;
        let space = match self.try_insert(tw, th) {
            Some(space) => space,
            None => {
                if self.atlas.pages.len() >= PAGE_LIMIT as usize {
                    return Err(AtlasError::OutOfPages);
                }
                let ghost n = self.atlas.pages@.len() as int;
                self.add_new_page();
                proof {
                    Location::lemma_pack_fields(0, 0, ps, ps, n);
                    pre = self.spaces@;
                    assert(last_fit(pre, tw as int, th as int) == pre.len() - 1);
                }
                let retry = self.try_insert(tw, th);
                retry.unwrap()
            }
        };
        proof {
            let n = self.atlas.pages@.len() as int;
            let locs = self.atlas.locations@;
            let k = last_fit(pre, tw as int, th as int);
            lemma_last_fit(pre, tw as int, th as int);
            lemma_split(pre, locs, k, tw as int, th as int, ps, n);
            lemma_record(locs, self.spaces@, id as int, space, ps, n);
        }
        self.record(id, space);
        Ok(Location::new(
            space.x(),
            space.y(),
            space.width() - additional_margin,
            space.height() - additional_margin,
            space.page_index(),
        ))
    }

    /// The page at `index`, for writing glyph pixels, if there is one.
    pub fn page_mut(&mut self, index: usize) -> (r: Option<&mut Page>)
        ensures
            final(self).spec_atlas().spec_locations() == old(self).spec_atlas().spec_locations(),
            final(self).spec_spaces() == old(self).spec_spaces(),
            final(self).spec_page_size() == old(self).spec_page_size(),
            old(self).wf() ==> final(self).wf(),
            (index as int) < old(self).spec_atlas().spec_pages().len() <==> r is Some,
            r matches Some(p) ==> *p == old(self).spec_atlas().spec_pages()[index as int]
                && final(self).spec_atlas().spec_pages() == old(
                self,
            ).spec_atlas().spec_pages().update(index as int, *final(p)),
            r is None ==> final(self).spec_atlas().spec_pages() == old(
                self,
            ).spec_atlas().spec_pages(),
    {
        if index < self.atlas.pages.len() {
            Some(&mut self.atlas.pages[index])
        } else {
            None
        }
    }

    /// Freezes the atlas, dropping the free-space bookkeeping. Every glyph of
    /// the result lies inside its page, and no two glyphs overlap.
    pub fn build(self) -> (r: Atlas)
        requires
            self.wf(),
        ensures
            r == self.spec_atlas(),
            r.packed_within(self.spec_page_size()),
    {
        self.atlas
    }
}

} // verus!
