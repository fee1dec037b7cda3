//! A rectangle on an atlas page, packed into 64 bits.
use vstd::prelude::*;

verus! {

/// Exclusive upper bound of the `x`, `y`, `width` and `height` fields.
pub const COORD_LIMIT: u32 = 8192;

/// Exclusive upper bound of the page index field.
pub const PAGE_LIMIT: u32 = 4096;

/// The packed value of the "no location assigned" sentinel.
pub const INVALID_PACKED: u64 = 0xFFFF_FFFF_FFFF_FFFF;

/// A location in an atlas: the position and size of a rectangle, and the
/// index of the page that it lies on.
///
/// Bits 0..13 hold `x`, 13..26 `y`, 26..39 `width`, 39..52 `height` and
/// 52..64 the page index.
#[derive(Clone, Copy, Debug, PartialEq, Eq, Structural)]
pub struct Location {
    packed: u64,
}

pub open spec fn field_x(p: u64) -> u64 {
    p & 0x1FFF
}

pub open spec fn field_y(p: u64) -> u64 {
    (p >> 13u64) & 0x1FFF
}

pub open spec fn field_width(p: u64) -> u64 {
    (p >> 26u64) & 0x1FFF
}

pub open spec fn field_height(p: u64) -> u64 {
    (p >> 39u64) & 0x1FFF
}

pub open spec fn field_page(p: u64) -> u64 {
    p >> 52u64
}

/// The packed form of the given fields.
pub open spec fn pack(x: u64, y: u64, width: u64, height: u64, page: u64) -> u64 {
    x | (y << 13u64) | (width << 26u64) | (height << 39u64) | (page << 52u64)
}

impl Location {
    /// The packed 64-bit value.
    pub closed spec fn bits(self) -> u64 {
        self.packed
    }

    /// The location whose packed value is `bits`.
    pub closed spec fn spec_from_bits(bits: u64) -> Location {
        Location { packed: bits }
    }

    /// The location with the given fields.
    pub open spec fn spec_new(x: int, y: int, width: int, height: int, page: int) -> Location {
        Location::spec_from_bits(pack(x as u64, y as u64, width as u64, height as u64, page as u64))
    }

    pub open spec fn spec_invalid() -> Location {
        Location::spec_from_bits(INVALID_PACKED)
    }

    pub open spec fn spec_zero() -> Location {
        Location::spec_from_bits(0)
    }

    pub broadcast proof fn lemma_from_bits(bits: u64)
        ensures
            #[trigger] Location::spec_from_bits(bits).bits() == bits,
    {
    }

    pub broadcast proof fn lemma_bits_from_bits(self)
        ensures
            #[trigger] Location::spec_from_bits(self.bits()) == self,
    {
    }

    /// Packing fields that are in range keeps each of them.
    pub proof fn lemma_pack_fields(x: int, y: int, width: int, height: int, page: int)
        requires
            0 <= x < COORD_LIMIT,
            0 <= y < COORD_LIMIT,
            0 <= width < COORD_LIMIT,
            0 <= height < COORD_LIMIT,
            0 <= page < PAGE_LIMIT,
        ensures
            ({
                let l = Location::spec_new(x, y, width, height, page);
                &&& l.spec_x() == x
                &&& l.spec_y() == y
                &&& l.spec_width() == width
                &&& l.spec_height() == height
                &&& l.spec_page() == page
            }),
    {
        let (a, b, c, d, e) = (x as u64, y as u64, width as u64, height as u64, page as u64);
        let packed = pack(a, b, c, d, e);
        assert(packed & 0x1FFF == a && (packed >> 13u64) & 0x1FFF == b && (packed >> 26u64)
            & 0x1FFF == c && (packed >> 39u64) & 0x1FFF == d && packed >> 52u64 == e)
            by (bit_vector)
            requires
                packed == a | (b << 13u64) | (c << 26u64) | (d << 39u64) | (e << 52u64),
                a < 8192,
                b < 8192,
                c < 8192,
                d < 8192,
                e < 4096,
        ;
    }

    pub open spec fn spec_x(self) -> int {
        field_x(self.bits()) as int
    }

    pub open spec fn spec_y(self) -> int {
        field_y(self.bits()) as int
    }

    pub open spec fn spec_width(self) -> int {
        field_width(self.bits()) as int
    }

    pub open spec fn spec_height(self) -> int {
        field_height(self.bits()) as int
    }

    pub open spec fn spec_page(self) -> int {
        field_page(self.bits()) as int
    }

    /// Whether this is the sentinel for "no location assigned".
    pub open spec fn is_invalid(self) -> bool {
        self.bits() == INVALID_PACKED
    }

    /// Whether this is the all-zero location given to zero-size glyphs.
    pub open spec fn is_zero(self) -> bool {
        self.bits() == 0
    }

    /// The all-zero location has every field at zero.
    pub proof fn lemma_zero_fields(self)
        requires
            self.is_zero(),
        ensures
            self.spec_x() == 0,
            self.spec_y() == 0,
            self.spec_width() == 0,
            self.spec_height() == 0,
            self.spec_page() == 0,
    {
        let p = self.packed;
        assert(p & 0x1FFF == 0 && (p >> 13u64) & 0x1FFF == 0 && (p >> 26u64) & 0x1FFF == 0 && (p
            >> 39u64) & 0x1FFF == 0 && p >> 52u64 == 0) by (bit_vector)
            requires
                p == 0,
        ;
    }

    /// The sentinel has every field at its largest value.
    pub proof fn lemma_invalid_fields(self)
        requires
            self.is_invalid(),
        ensures
            self.spec_x() == COORD_LIMIT - 1,
            self.spec_y() == COORD_LIMIT - 1,
            self.spec_width() == COORD_LIMIT - 1,
            self.spec_height() == COORD_LIMIT - 1,
            self.spec_page() == PAGE_LIMIT - 1,
    {
        let p = self.packed;
        assert(p & 0x1FFF == 8191 && (p >> 13u64) & 0x1FFF == 8191 && (p >> 26u64) & 0x1FFF
            == 8191 && (p >> 39u64) & 0x1FFF == 8191 && p >> 52u64 == 4095) by (bit_vector)
            requires
                p == 0xFFFF_FFFF_FFFF_FFFFu64,
        ;
    }

    /// Creates a location from its fields, each of which must be in range.
    pub fn new(x: u32, y: u32, width: u32, height: u32, page: u32) -> (r: Location)
        requires
            x < COORD_LIMIT,
            y < COORD_LIMIT,
            width < COORD_LIMIT,
            height < COORD_LIMIT,
            page < PAGE_LIMIT,
        ensures
            r == Location::spec_new(x as int, y as int, width as int, height as int, page as int),
            r.spec_x() == x,
            r.spec_y() == y,
            r.spec_width() == width,
            r.spec_height() == height,
            r.spec_page() == page,
    {
        let (x, y, w, h, p) = (x as u64, y as u64, width as u64, height as u64, page as u64);
        let packed = x | (y << 13u64) | (w << 26u64) | (h << 39u64) | (p << 52u64);
        proof {
            assert(packed & 0x1FFF == x) by (bit_vector)
                requires
                    packed == x | (y << 13u64) | (w << 26u64) | (h << 39u64) | (p << 52u64),
                    x < 8192,
                    y < 8192,
                    w < 8192,
                    h < 8192,
                    p < 4096,
            ;
            assert((packed >> 13u64) & 0x1FFF == y) by (bit_vector)
                requires
                    packed == x | (y << 13u64) | (w << 26u64) | (h << 39u64) | (p << 52u64),
                    x < 8192,
                    y < 8192,
                    w < 8192,
                    h < 8192,
                    p < 4096,
            ;
            assert((packed >> 26u64) & 0x1FFF == w) by (bit_vector)
                requires
                    packed == x | (y << 13u64) | (w << 26u64) | (h << 39u64) | (p << 52u64),
                    x < 8192,
                    y < 8192,
                    w < 8192,
                    h < 8192,
                    p < 4096,
            ;
            assert((packed >> 39u64) & 0x1FFF == h) by (bit_vector)
                requires
                    packed == x | (y << 13u64) | (w << 26u64) | (h << 39u64) | (p << 52u64),
                    x < 8192,
                    y < 8192,
                    w < 8192,
                    h < 8192,
                    p < 4096,
            ;
            assert(packed >> 52u64 == p) by (bit_vector)
                requires
                    packed == x | (y << 13u64) | (w << 26u64) | (h << 39u64) | (p << 52u64),
                    x < 8192,
                    y < 8192,
                    w < 8192,
                    h < 8192,
                    p < 4096,
            ;
        }
        Location { packed }
    }

    /// The sentinel for "no location assigned yet".
    pub fn invalid() -> (r: Location)
        ensures
            r == Location::spec_invalid(),
            r.is_invalid(),
    {
        Location { packed: INVALID_PACKED }
    }

    /// The all-zero location, recorded for glyphs without area.
    pub fn zero() -> (r: Location)
        ensures
            r == Location::spec_zero(),
            r.is_zero(),
            r.spec_x() == 0,
            r.spec_y() == 0,
            r.spec_width() == 0,
            r.spec_height() == 0,
            r.spec_page() == 0,
            !r.is_invalid(),
    {
        proof {
            Location::spec_zero().lemma_zero_fields();
        }
        Location { packed: 0 }
    }

    /// Reinterprets a packed value as a location.
    pub fn from_packed(packed: u64) -> (r: Location)
        ensures
            r == Location::spec_from_bits(packed),
            r.bits() == packed,
    {
        Location { packed }
    }

    /// The packed 64-bit value.
    pub fn packed(self) -> (r: u64)
        ensures
            r == self.bits(),
    {
        self.packed
    }

    /// Whether this is the "no location assigned" sentinel.
    pub fn is_invalid_location(self) -> (r: bool)
        ensures
            r == self.is_invalid(),
    {
        self.packed == INVALID_PACKED
    }

    /// The left edge.
    pub fn x(self) -> (r: u32)
        ensures
            r == self.spec_x(),
            r < COORD_LIMIT,
    {
        proof {
            let p = self.packed;
            assert(p & 0x1FFF < 8192) by (bit_vector);
        }
        (self.packed & 0x1FFF) as u32
    }

    /// The top edge.
    pub fn y(self) -> (r: u32)
        ensures
            r == self.spec_y(),
            r < COORD_LIMIT,
    {
        proof {
            let p = self.packed;
            assert((p >> 13u64) & 0x1FFF < 8192) by (bit_vector);
        }
        ((self.packed >> 13u64) & 0x1FFF) as u32
    }

    /// The width in pixels.
    pub fn width(self) -> (r: u32)
        ensures
            r == self.spec_width(),
            r < COORD_LIMIT,
    {
        proof {
            let p = self.packed;
            assert((p >> 26u64) & 0x1FFF < 8192) by (bit_vector);
        }
        ((self.packed >> 26u64) & 0x1FFF) as u32
    }

    /// The height in pixels.
    pub fn height(self) -> (r: u32)
        ensures
            r == self.spec_height(),
            r < COORD_LIMIT,
    {
        proof {
            let p = self.packed;
            assert((p >> 39u64) & 0x1FFF < 8192) by (bit_vector);
        }
        ((self.packed >> 39u64) & 0x1FFF) as u32
    }

    /// The index of the page.
    pub fn page_index(self) -> (r: u32)
        ensures
            r == self.spec_page(),
            r < PAGE_LIMIT,
    {
        proof {
            let p = self.packed;
            assert(p >> 52u64 < 4096) by (bit_vector);
        }
        (self.packed >> 52u64) as u32
    }
}

} // verus!
