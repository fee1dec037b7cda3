use caxton::atlas::Atlas;
use caxton::error::AtlasError;
use caxton::index_file::{decode_index, encode_index, FORMAT_VERSION};
use caxton::location::Location;
use caxton::page::Page;

fn sample_atlas() -> Atlas {
    let mut b = Atlas::builder(32);
    b.insert(1, 10, 10, 1).unwrap();
    b.insert(3, 20, 5, 1).unwrap();
    b.insert(4, 0, 0, 1).unwrap();
    b.insert(0, 25, 25, 1).unwrap();
    b.page_mut(0).unwrap().blit(&[9, 8, 7, 6], 1, 1, 3, 4).unwrap();
    b.build()
}

#[test]
fn index_layout_is_big_endian() {
    let mut b = Atlas::builder(64);
    b.insert(0, 40, 40, 0).unwrap();
    let bytes = encode_index(&b.build()).unwrap();
    let packed = Location::new(0, 0, 40, 40, 0).packed();
    let mut expected = vec![0, 0, 0, 1, 0, 1, 0, 1];
    expected.extend_from_slice(&packed.to_be_bytes());
    assert_eq!(bytes, expected);
}

#[test]
fn index_of_empty_atlas() {
    let bytes = encode_index(&Atlas::builder(64).build()).unwrap();
    assert_eq!(bytes, vec![0, 0, 0, 1, 0, 0, 0, 0]);
    let ix = decode_index(&bytes).unwrap();
    assert!(ix.locations.is_empty());
    assert_eq!(ix.num_pages, 0);
}

#[test]
fn save_then_load_keeps_table_and_pixels() {
    let atlas = sample_atlas();
    let bytes = encode_index(&atlas).unwrap();
    let ix = decode_index(&bytes).unwrap();
    assert_eq!(ix.locations.as_slice(), atlas.glyph_locations());
    assert_eq!(ix.num_pages as usize, atlas.num_pages());
    let mut pages = Vec::new();
    for i in 0..ix.num_pages {
        let p = atlas.page(i as usize).unwrap();
        let raw = p.pixels().clone();
        pages.push(Page::from_rgba(i, p.size(), p.size(), raw, 32).unwrap());
    }
    let loaded = Atlas::from_parts(ix.locations, pages);
    assert_eq!(loaded.glyph_locations(), atlas.glyph_locations());
    for i in 0..atlas.num_pages() {
        assert_eq!(loaded.page(i).unwrap().pixels(), atlas.page(i).unwrap().pixels());
    }
}

#[test]
fn version_mismatch_is_refused() {
    let mut bytes = encode_index(&sample_atlas()).unwrap();
    bytes[3] = 2;
    assert_eq!(
        decode_index(&bytes).err(),
        Some(AtlasError::VersionMismatch { expected: FORMAT_VERSION, found: 2 })
    );
    let bytes = [0xFF, 0, 0, 0];
    assert_eq!(
        decode_index(&bytes).err(),
        Some(AtlasError::VersionMismatch { expected: 1, found: 0xFF00_0000 })
    );
}

#[test]
fn truncated_index_is_refused() {
    let bytes = encode_index(&sample_atlas()).unwrap();
    assert_eq!(decode_index(&bytes[..3]).err(), Some(AtlasError::Truncated));
    assert_eq!(decode_index(&bytes[..6]).err(), Some(AtlasError::Truncated));
    assert_eq!(decode_index(&bytes[..bytes.len() - 1]).err(), Some(AtlasError::Truncated));
    assert_eq!(decode_index(&[]).err(), Some(AtlasError::Truncated));
}

#[test]
fn trailing_bytes_are_ignored() {
    let atlas = sample_atlas();
    let mut bytes = encode_index(&atlas).unwrap();
    bytes.extend_from_slice(&[1, 2, 3]);
    let ix = decode_index(&bytes).unwrap();
    assert_eq!(ix.locations.as_slice(), atlas.glyph_locations());
}

#[test]
fn too_many_locations_cannot_be_saved() {
    let mut b = Atlas::builder(64);
    b.insert(u16::MAX, 1, 1, 0).unwrap();
    let atlas = b.build();
    assert_eq!(atlas.glyph_locations().len(), 65536);
    assert_eq!(encode_index(&atlas).err(), Some(AtlasError::TooManyLocations));
}

#[test]
fn largest_table_can_be_saved() {
    let mut b = Atlas::builder(64);
    b.insert(u16::MAX - 1, 1, 1, 0).unwrap();
    let atlas = b.build();
    let bytes = encode_index(&atlas).unwrap();
    assert_eq!(&bytes[4..6], &[0xFF, 0xFF]);
    assert_eq!(bytes.len(), 8 + 8 * 65535);
}
