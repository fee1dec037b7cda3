use caxton::error::AtlasError;
use caxton::page::Page;

#[test]
fn blank_page() {
    let p = Page::blank(4);
    assert_eq!(p.size(), 4);
    assert_eq!(p.pixels().len(), 64);
    assert!(p.pixels().iter().all(|&b| b == 0));
}

#[test]
fn page_from_rgba_checks_size() {
    let ok = Page::from_rgba(0, 2, 2, vec![1; 16], 2).unwrap();
    assert_eq!(ok.into_pixels(), vec![1; 16]);
    assert_eq!(
        Page::from_rgba(3, 2, 4, vec![0; 32], 2).err().map(|e| e),
        Some(AtlasError::WrongPageSize { index: 3, width: 2, height: 4, expected: 2 })
    );
    assert_eq!(
        Page::from_rgba(1, 4, 4, vec![0; 64], 2).err(),
        Some(AtlasError::WrongPageSize { index: 1, width: 4, height: 4, expected: 2 })
    );
    assert_eq!(Page::from_rgba(0, 2, 2, vec![0; 15], 2).err(), Some(AtlasError::PixelCount));
}

#[test]
fn blit_copies_rows() {
    let mut p = Page::blank(3);
    let src: Vec<u8> = (1..=16).collect();
    p.blit(&src, 2, 2, 1, 1).unwrap();
    let px = p.pixels();
    // Row 0 untouched, row 1 columns 1..3, row 2 columns 1..3.
    assert!(px[0..12].iter().all(|&b| b == 0));
    assert_eq!(&px[12..16], &[0, 0, 0, 0]);
    assert_eq!(&px[16..24], &src[0..8]);
    assert_eq!(&px[24..28], &[0, 0, 0, 0]);
    assert_eq!(&px[28..36], &src[8..16]);
}

#[test]
fn blit_refuses_bad_input() {
    let mut p = Page::blank(3);
    assert_eq!(p.blit(&[0; 15], 2, 2, 0, 0), Err(AtlasError::PixelCount));
    assert_eq!(p.blit(&[1; 16], 2, 2, 2, 0), Err(AtlasError::OutOfBounds));
    assert_eq!(p.blit(&[1; 16], 2, 2, 0, 2), Err(AtlasError::OutOfBounds));
    assert!(p.pixels().iter().all(|&b| b == 0));
    assert_eq!(p.blit(&[], 0, 0, 3, 3), Ok(()));
}
