use caxton::atlas::Atlas;
use caxton::error::AtlasError;
use caxton::location::Location;

fn loc(x: u32, y: u32, w: u32, h: u32, p: u32) -> Location {
    Location::new(x, y, w, h, p)
}

fn overlaps(a: Location, b: Location) -> bool {
    a.page_index() == b.page_index()
        && a.x() < b.x() + b.width()
        && b.x() < a.x() + a.width()
        && a.y() < b.y() + b.height()
        && b.y() < a.y() + a.height()
}

#[test]
fn scripted_three_glyphs() {
    let mut b = Atlas::builder(64);
    assert_eq!(b.insert(0, 40, 40, 0), Ok(loc(0, 0, 40, 40, 0)));
    // Neither the 24-high strip below nor the 24-wide strip beside glyph 0 admits 30x30.
    assert_eq!(b.insert(1, 30, 30, 0), Ok(loc(0, 0, 30, 30, 1)));
    // The strip right of glyph 1 is the last free rectangle.
    assert_eq!(b.insert(2, 20, 20, 0), Ok(loc(30, 0, 20, 20, 1)));
    let atlas = b.build();
    assert_eq!(atlas.num_pages(), 2);
    assert_eq!(atlas.glyph_location(2), Some(loc(30, 0, 20, 20, 1)));
}

#[test]
fn small_glyph_reuses_strip_of_first_page() {
    let mut b = Atlas::builder(64);
    b.insert(0, 40, 40, 0).unwrap();
    // The strip to the right of glyph 0 (24 wide, 40 high) is searched first.
    assert_eq!(b.insert(1, 10, 10, 0), Ok(loc(40, 0, 10, 10, 0)));
    let atlas = b.build();
    assert_eq!(atlas.num_pages(), 1);
}

#[test]
fn margin_is_reserved_but_not_returned() {
    let mut b = Atlas::builder(64);
    assert_eq!(b.insert(5, 10, 12, 1), Ok(loc(0, 0, 10, 12, 0)));
    let atlas = b.build();
    assert_eq!(atlas.glyph_location(5), Some(loc(0, 0, 11, 13, 0)));
}

#[test]
fn table_gaps_hold_the_sentinel() {
    let mut b = Atlas::builder(64);
    b.insert(3, 4, 4, 0).unwrap();
    let atlas = b.build();
    let table = atlas.glyph_locations();
    assert_eq!(table.len(), 4);
    for l in &table[..3] {
        assert!(l.is_invalid_location());
    }
    assert!(!table[3].is_invalid_location());
    assert_eq!(atlas.glyph_location(4), None);
}

#[test]
fn zero_size_glyph_takes_no_page() {
    let mut b = Atlas::builder(64);
    assert_eq!(b.insert(7, 0, 0, 1), Ok(Location::zero()));
    let atlas = b.build();
    assert_eq!(atlas.num_pages(), 0);
    assert_eq!(atlas.glyph_location(7), Some(Location::zero()));
}

#[test]
fn zero_size_glyph_after_others() {
    let mut b = Atlas::builder(64);
    b.insert(0, 10, 10, 0).unwrap();
    assert_eq!(b.insert(1, 0, 0, 0), Ok(Location::zero()));
    let atlas = b.build();
    assert_eq!(atlas.num_pages(), 1);
}

#[test]
fn duplicate_glyph_is_refused() {
    let mut b = Atlas::builder(64);
    b.insert(2, 10, 10, 0).unwrap();
    assert_eq!(b.insert(2, 5, 5, 0), Err(AtlasError::DuplicateGlyph { glyph_id: 2 }));
    // The refused call changed nothing: the next glyph goes where it would have.
    assert_eq!(b.insert(3, 5, 5, 0), Ok(loc(10, 0, 5, 5, 0)));
    let atlas = b.build();
    assert_eq!(atlas.num_pages(), 1);
    assert_eq!(atlas.glyph_location(2), Some(loc(0, 0, 10, 10, 0)));
    assert_eq!(atlas.glyph_locations().len(), 4);
}

#[test]
fn duplicate_zero_size_glyph_is_refused() {
    let mut b = Atlas::builder(64);
    b.insert(2, 0, 0, 0).unwrap();
    assert_eq!(b.insert(2, 0, 0, 0), Err(AtlasError::DuplicateGlyph { glyph_id: 2 }));
}

#[test]
fn too_large_glyph_is_refused() {
    let mut b = Atlas::builder(64);
    assert_eq!(
        b.insert(0, 64, 10, 0),
        Err(AtlasError::TooLarge { width: 64, height: 10, page_size: 64 })
    );
    assert_eq!(
        b.insert(0, 10, 63, 1),
        Err(AtlasError::TooLarge { width: 10, height: 63, page_size: 64 })
    );
    assert_eq!(
        b.insert(0, u32::MAX, 1, u32::MAX),
        Err(AtlasError::TooLarge { width: u32::MAX, height: 1, page_size: 64 })
    );
    let atlas = b.build();
    assert_eq!(atlas.num_pages(), 0);
    assert_eq!(atlas.glyph_locations().len(), 0);
}

#[test]
fn largest_glyph_that_fits() {
    let mut b = Atlas::builder(64);
    assert_eq!(b.insert(0, 62, 62, 1), Ok(loc(0, 0, 62, 62, 0)));
}

#[test]
fn pages_run_out() {
    let mut b = Atlas::builder(2);
    for id in 0..4 * 4096u32 {
        b.insert(id as u16, 1, 1, 0).unwrap();
    }
    assert_eq!(b.insert(60000, 1, 1, 0), Err(AtlasError::OutOfPages));
    let atlas = b.build();
    assert_eq!(atlas.num_pages(), 4096);
    assert_eq!(atlas.glyph_location(60000), None);
}

#[test]
fn packing_never_overlaps_and_stays_inside() {
    let page_size = 128u32;
    let mut b = Atlas::builder(page_size);
    let mut seed: u32 = 12345;
    for id in 0..300u16 {
        seed = seed.wrapping_mul(1103515245).wrapping_add(12345);
        let w = (seed >> 8) % 40;
        seed = seed.wrapping_mul(1103515245).wrapping_add(12345);
        let h = (seed >> 8) % 40;
        b.insert(id, w, h, 1).unwrap();
    }
    let atlas = b.build();
    let table = atlas.glyph_locations();
    for (i, a) in table.iter().enumerate() {
        if a.is_invalid_location() || a.packed() == 0 {
            continue;
        }
        assert!((a.page_index() as usize) < atlas.num_pages());
        assert!(a.x() + a.width() <= page_size);
        assert!(a.y() + a.height() <= page_size);
        for (j, c) in table.iter().enumerate() {
            if i != j && !c.is_invalid_location() {
                assert!(!overlaps(*a, *c), "{i} and {j} overlap");
            }
        }
    }
}

#[test]
fn pages_are_blank_and_square() {
    let mut b = Atlas::builder(16);
    b.insert(0, 4, 4, 0).unwrap();
    let page = b.page_mut(0).unwrap();
    assert_eq!(page.size(), 16);
    assert_eq!(page.pixels().len(), 4 * 16 * 16);
    assert!(page.pixels().iter().all(|&p| p == 0));
    assert!(b.page_mut(1).is_none());
    let atlas = b.build();
    assert!(atlas.page(0).is_some());
    assert!(atlas.page(1).is_none());
}

#[test]
fn glyph_pixels_land_in_the_page() {
    let mut b = Atlas::builder(8);
    let l = b.insert(0, 2, 1, 0).unwrap();
    let l2 = b.insert(1, 2, 1, 0).unwrap();
    assert_eq!(l2, loc(2, 0, 2, 1, 0));
    let src = vec![1, 2, 3, 4, 5, 6, 7, 8];
    b.page_mut(0).unwrap().blit(&src, 2, 1, l2.x(), l2.y()).unwrap();
    let atlas = b.build();
    let px = atlas.page(l.page_index() as usize).unwrap().pixels();
    assert_eq!(&px[0..8], &[0; 8]);
    assert_eq!(&px[8..16], &src[..]);
    assert!(px[16..].iter().all(|&p| p == 0));
}
