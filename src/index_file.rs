//! The byte format of the location index stored beside the page images.
//!
//! The index is a big-endian `u32` format version, a `u16` count of
//! locations, a `u16` count of pages, then one packed `u64` location per
//! glyph id.
use vstd::prelude::*;

use crate::atlas::Atlas;
use crate::error::AtlasError;
use crate::location::Location;

verus! {

broadcast use {Location::lemma_from_bits, Location::lemma_bits_from_bits};

/// The version written to, and demanded of, every index.
pub const FORMAT_VERSION: u32 = 1;

/// Bytes before the first location.
pub const HEADER_LEN: usize = 8;

pub open spec fn be16(v: u16) -> Seq<u8> {
    seq![(v >> 8u16) as u8, v as u8]
}

pub open spec fn be32(v: u32) -> Seq<u8> {
    seq![(v >> 24u32) as u8, (v >> 16u32) as u8, (v >> 8u32) as u8, v as u8]
}

pub open spec fn be64(v: u64) -> Seq<u8> {
    seq![
        (v >> 56u64) as u8,
        (v >> 48u64) as u8,
        (v >> 40u64) as u8,
        (v >> 32u64) as u8,
        (v >> 24u64) as u8,
        (v >> 16u64) as u8,
        (v >> 8u64) as u8,
        v as u8,
    ]
}

/// The big-endian `u16` at `at`.
pub open spec fn read16(b: Seq<u8>, at: int) -> u16 {
    ((b[at] as u16) << 8u16) | (b[at + 1] as u16)
}

/// The big-endian `u32` at `at`.
pub open spec fn read32(b: Seq<u8>, at: int) -> u32 {
    ((b[at] as u32) << 24u32) | ((b[at + 1] as u32) << 16u32) | ((b[at + 2] as u32) << 8u32) | (
    b[at + 3] as u32)
}

/// The big-endian `u64` at `at`.
pub open spec fn read64(b: Seq<u8>, at: int) -> u64 {
    ((b[at] as u64) << 56u64) | ((b[at + 1] as u64) << 48u64) | ((b[at + 2] as u64) << 40u64) | ((b[at
        + 3] as u64) << 32u64) | ((b[at + 4] as u64) << 24u64) | ((b[at + 5] as u64) << 16u64) | ((b[at
        + 6] as u64) << 8u64) | (b[at + 7] as u64)
}

/// The packed locations, eight bytes each, in order.
pub open spec fn location_bytes(locs: Seq<Location>) -> Seq<u8>
    decreases locs.len(),
{
    if locs.len() == 0 {
        Seq::empty()
    } else {
        location_bytes(locs.drop_last()) + be64(locs.last().bits())
    }
}

/// The index of a table of `locs` and `num_pages` pages.
pub open spec fn index_bytes(version: u32, locs: Seq<Location>, num_pages: u16) -> Seq<u8> {
    be32(version) + be16(locs.len() as u16) + be16(num_pages) + location_bytes(locs)
}

/// What an index holds: its locations and its page count, or why it cannot
/// be used. Bytes after the announced locations are ignored.
pub open spec fn index_of(b: Seq<u8>) -> Result<(Seq<Location>, u16), AtlasError> {
    if b.len() < 4 {
        Err(AtlasError::Truncated)
    } else if read32(b, 0) != FORMAT_VERSION {
        Err(AtlasError::VersionMismatch { expected: FORMAT_VERSION, found: read32(b, 0) })
    } else if b.len() < HEADER_LEN {
        Err(AtlasError::Truncated)
    } else if b.len() < HEADER_LEN + 8 * read16(b, 4) {
        Err(AtlasError::Truncated)
    } else {
        Ok(
            (
                Seq::new(
                    read16(b, 4) as nat,
                    |i: int| Location::spec_from_bits(read64(b, HEADER_LEN + 8 * i)),
                ),
                read16(b, 6),
            ),
        )
    }
}

/// The contents of a decoded index.
pub struct LocationIndex {
    /// The location of each glyph id.
    pub locations: Vec<Location>,
    /// How many page images accompany the index.
    pub num_pages: u16,
}

fn push_be16(out: &mut Vec<u8>, v: u16)
    ensures
        final(out)@ == old(out)@ + be16(v),
{
    out.push((v >> 8u16) as u8);
    out.push(v as u8);
    assert(final(out)@ =~= old(out)@ + be16(v));
}

fn push_be32(out: &mut Vec<u8>, v: u32)
    ensures
        final(out)@ == old(out)@ + be32(v),
{
    out.push((v >> 24u32) as u8);
    out.push((v >> 16u32) as u8);
    out.push((v >> 8u32) as u8);
    out.push(v as u8);
    assert(final(out)@ =~= old(out)@ + be32(v));
}

fn push_be64(out: &mut Vec<u8>, v: u64)
    ensures
        final(out)@ == old(out)@ + be64(v),
{
    out.push((v >> 56u64) as u8);
    out.push((v >> 48u64) as u8);
    out.push((v >> 40u64) as u8);
    out.push((v >> 32u64) as u8);
    out.push((v >> 24u64) as u8);
    out.push((v >> 16u64) as u8);
    out.push((v >> 8u64) as u8);
    out.push(v as u8);
    assert(final(out)@ =~= old(out)@ + be64(v));
}

fn read_be16(b: &[u8], at: usize) -> (r: u16)
    requires
        at + 2 <= b@.len(),
    ensures
        r == read16(b@, at as int),
{
    ((b[at] as u16) << 8u16) | (b[at + 1] as u16)
}

fn read_be32(b: &[u8], at: usize) -> (r: u32)
    requires
        at + 4 <= b@.len(),
    ensures
        r == read32(b@, at as int),
{
    ((b[at] as u32) << 24u32) | ((b[at + 1] as u32) << 16u32) | ((b[at + 2] as u32) << 8u32) | (b[at
        + 3] as u32)
}

fn read_be64(b: &[u8], at: usize) -> (r: u64)
    requires
        at + 8 <= b@.len(),
    ensures
        r == read64(b@, at as int),
{
    ((b[at] as u64) << 56u64) | ((b[at + 1] as u64) << 48u64) | ((b[at + 2] as u64) << 40u64) | ((b[at
        + 3] as u64) << 32u64) | ((b[at + 4] as u64) << 24u64) | ((b[at + 5] as u64) << 16u64) | ((b[at
        + 6] as u64) << 8u64) | (b[at + 7] as u64)
}

/// Writes the index of `atlas`.
///
/// Fails with `TooManyLocations` or `TooManyPages` where a count does not
/// fit the header's 16 bits.
pub fn encode_index(atlas: &Atlas) -> (r: Result<Vec<u8>, AtlasError>)
    ensures
        ({
            let locs = atlas.spec_locations();
            let n = atlas.spec_pages().len();
            if locs.len() > 0xFFFF {
                r == Err::<Vec<u8>, AtlasError>(AtlasError::TooManyLocations)
            } else if n > 0xFFFF {
                r == Err::<Vec<u8>, AtlasError>(AtlasError::TooManyPages)
            } else {
                r matches Ok(b) && b@ == index_bytes(FORMAT_VERSION, locs, n as u16)
            }
        }),
{
    let locs = atlas.glyph_locations();
    if locs.len() > 0xFFFF {
        return Err(AtlasError::TooManyLocations);
    }
    if atlas.num_pages() > 0xFFFF {
        return Err(AtlasError::TooManyPages);
    }
    let mut out: Vec<u8> = Vec::new();
    push_be32(&mut out, FORMAT_VERSION);
    push_be16(&mut out, locs.len() as u16);
    push_be16(&mut out, atlas.num_pages() as u16);
    let ghost head = out@;
    let mut i: usize = 0;
    assert(locs@.subrange(0, 0) =~= Seq::<Location>::empty());
    assert(out@ =~= head + location_bytes(locs@.subrange(0, 0)));
    while i < locs.len()
        invariant
            i <= locs@.len(),
            head == be32(FORMAT_VERSION) + be16(locs@.len() as u16) + be16(
                atlas.spec_pages().len() as u16,
            ),
            out@ == head + location_bytes(locs@.subrange(0, i as int)),
        decreases locs@.len() - i,
    {
        push_be64(&mut out, locs[i].packed());
        assert(locs@.subrange(0, i + 1 as int).drop_last() =~= locs@.subrange(0, i as int));
        assert(out@ =~= head + location_bytes(locs@.subrange(0, i + 1 as int)));
        i = i + 1;
    }
    assert(locs@.subrange(0, i as int) =~= locs@);
    assert(out@ =~= index_bytes(FORMAT_VERSION, locs@, atlas.spec_pages().len() as u16));
    Ok(out)
}

/// Reads an index: its version must be `FORMAT_VERSION`, and it must hold as
/// many locations as its header announces.
pub fn decode_index(bytes: &[u8]) -> (r: Result<LocationIndex, AtlasError>)
    ensures
        match r {
            Ok(ix) => index_of(bytes@) == Ok::<(Seq<Location>, u16), AtlasError>(
                (ix.locations@, ix.num_pages),
            ),
            Err(e) => index_of(bytes@) == Err::<(Seq<Location>, u16), AtlasError>(e),
        },
        bytes@.len() >= 4 && read32(bytes@, 0) != FORMAT_VERSION ==> r == Err::<
            LocationIndex,
            AtlasError,
        >(AtlasError::VersionMismatch { expected: FORMAT_VERSION, found: read32(bytes@, 0) }),
{
    if bytes.len() < 4 {
        return Err(AtlasError::Truncated);
    }
    let version = read_be32(bytes, 0);
    if version != FORMAT_VERSION {
        return Err(AtlasError::VersionMismatch { expected: FORMAT_VERSION, found: version });
    }
    if bytes.len() < HEADER_LEN {
        return Err(AtlasError::Truncated);
    }
    let count = read_be16(bytes, 4);
    let num_pages = read_be16(bytes, 6);
    if bytes.len() < HEADER_LEN + 8 * (count as usize) {
        return Err(AtlasError::Truncated);
    }
    let mut locations: Vec<Location> = Vec::new();
    let mut i: usize = 0;
    while i < count as usize
        invariant
            i <= count,
            count == read16(bytes@, 4),
            HEADER_LEN + 8 * count <= bytes@.len(),
            locations@.len() == i,
            forall|j: int|
                0 <= j < i ==> #[trigger] locations@[j] == Location::spec_from_bits(
                    read64(bytes@, HEADER_LEN + 8 * j),
                ),
        decreases count - i,
    {
        let bits = read_be64(bytes, HEADER_LEN + 8 * i);
        locations.push(Location::from_packed(bits));
        i = i + 1;
    }
    let ghost expected = Seq::new(
        count as nat,
        |j: int| Location::spec_from_bits(read64(bytes@, HEADER_LEN + 8 * j)),
    );
    assert(locations@ =~= expected);
    Ok(LocationIndex { locations, num_pages })
}

proof fn lemma_read16(b: Seq<u8>, at: int, v: u16)
    requires
        0 <= at,
        at + 2 <= b.len(),
        b[at] == be16(v)[0],
        b[at + 1] == be16(v)[1],
    ensures
        read16(b, at) == v,
{
    let (b0, b1) = (b[at], b[at + 1]);
    assert(((b0 as u16) << 8u16) | (b1 as u16) == v) by (bit_vector)
        requires
            b0 == (v >> 8u16) as u8,
            b1 == v as u8,
    ;
}

proof fn lemma_read32(b: Seq<u8>, at: int, v: u32)
    requires
        0 <= at,
        at + 4 <= b.len(),
        forall|j: int| 0 <= j < 4 ==> b[at + j] == #[trigger] be32(v)[j],
    ensures
        read32(b, at) == v,
{
    assert(b[at + 0] == be32(v)[0] && b[at + 1] == be32(v)[1] && b[at + 2] == be32(v)[2] && b[at
        + 3] == be32(v)[3]);
    let (b0, b1, b2, b3) = (b[at], b[at + 1], b[at + 2], b[at + 3]);
    assert(((b0 as u32) << 24u32) | ((b1 as u32) << 16u32) | ((b2 as u32) << 8u32) | (b3 as u32)
        == v) by (bit_vector)
        requires
            b0 == (v >> 24u32) as u8,
            b1 == (v >> 16u32) as u8,
            b2 == (v >> 8u32) as u8,
            b3 == v as u8,
    ;
}

proof fn lemma_read64(b: Seq<u8>, at: int, v: u64)
    requires
        0 <= at,
        at + 8 <= b.len(),
        forall|j: int| 0 <= j < 8 ==> b[at + j] == #[trigger] be64(v)[j],
    ensures
        read64(b, at) == v,
{
    assert(b[at + 0] == be64(v)[0] && b[at + 1] == be64(v)[1] && b[at + 2] == be64(v)[2] && b[at
        + 3] == be64(v)[3] && b[at + 4] == be64(v)[4] && b[at + 5] == be64(v)[5] && b[at + 6]
        == be64(v)[6] && b[at + 7] == be64(v)[7]);
    let (b0, b1, b2, b3) = (b[at], b[at + 1], b[at + 2], b[at + 3]);
    let (b4, b5, b6, b7) = (b[at + 4], b[at + 5], b[at + 6], b[at + 7]);
    assert(((b0 as u64) << 56u64) | ((b1 as u64) << 48u64) | ((b2 as u64) << 40u64) | ((b3 as u64)
        << 32u64) | ((b4 as u64) << 24u64) | ((b5 as u64) << 16u64) | ((b6 as u64) << 8u64) | (b7
        as u64) == v) by (bit_vector)
        requires
            b0 == (v >> 56u64) as u8,
            b1 == (v >> 48u64) as u8,
            b2 == (v >> 40u64) as u8,
            b3 == (v >> 32u64) as u8,
            b4 == (v >> 24u64) as u8,
            b5 == (v >> 16u64) as u8,
            b6 == (v >> 8u64) as u8,
            b7 == v as u8,
    ;
}

/// Location `i` occupies bytes `8 * i .. 8 * i + 8` of `location_bytes`.
proof fn lemma_location_bytes(locs: Seq<Location>)
    ensures
        location_bytes(locs).len() == 8 * locs.len(),
        forall|i: int, j: int|
            0 <= i < locs.len() && 0 <= j < 8 ==> location_bytes(locs)[8 * i + j] == #[trigger] be64(
                (#[trigger] locs[i]).bits(),
            )[j],
    decreases locs.len(),
{
    if locs.len() > 0 {
        let init = locs.drop_last();
        lemma_location_bytes(init);
        assert forall|i: int, j: int| 0 <= i < locs.len() && 0 <= j < 8 implies location_bytes(
            locs,
        )[8 * i + j] == #[trigger] be64((#[trigger] locs[i]).bits())[j] by {
            if i < init.len() {
                assert(init[i] == locs[i]);
            }
        }
    }
}

/// Reading back the index written for a table and a page count gives that
/// table and that page count.
pub proof fn lemma_index_round_trip(locs: Seq<Location>, num_pages: u16)
    requires
        locs.len() <= 0xFFFF,
    ensures
        index_of(index_bytes(FORMAT_VERSION, locs, num_pages)) == Ok::<
            (Seq<Location>, u16),
            AtlasError,
        >((locs, num_pages)),
{
    let count = locs.len() as u16;
    let b = index_bytes(FORMAT_VERSION, locs, num_pages);
    lemma_location_bytes(locs);
    let lb = location_bytes(locs);
    assert(b.len() == 8 + 8 * locs.len());
    assert forall|j: int| 0 <= j < 4 implies b[0 + j] == #[trigger] be32(FORMAT_VERSION)[j] by {}
    lemma_read32(b, 0, FORMAT_VERSION);
    lemma_read16(b, 4, count);
    lemma_read16(b, 6, num_pages);
    assert(count as int == locs.len());
    let decoded = Seq::new(
        count as nat,
        |i: int| Location::spec_from_bits(read64(b, HEADER_LEN + 8 * i)),
    );
    assert forall|i: int| 0 <= i < locs.len() implies decoded[i] == locs[i] by {
        assert forall|j: int| 0 <= j < 8 implies b[(8 + 8 * i) + j] == #[trigger] be64(
            locs[i].bits(),
        )[j] by {
            assert(b[(8 + 8 * i) + j] == lb[8 * i + j]);
        }
        lemma_read64(b, 8 + 8 * i, locs[i].bits());
    }
    assert(decoded =~= locs);
}

} // verus!
