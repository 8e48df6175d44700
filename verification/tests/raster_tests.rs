use seam_carver::{Pixel, Raster};

#[test]
fn from_rgba_reads_four_bytes_per_pixel() {
    let bytes = [1u8, 2, 3, 4, 5, 6, 7, 8, 9, 10, 11, 12, 13, 14, 15, 16];
    let image = Raster::from_rgba(2, 2, &bytes).unwrap();
    assert_eq!(image.width(), 2);
    assert_eq!(image.height(), 2);
    assert_eq!(*image.get(0, 0), Pixel { r: 1, g: 2, b: 3, a: 4 });
    assert_eq!(*image.get(1, 0), Pixel { r: 5, g: 6, b: 7, a: 8 });
    assert_eq!(*image.get(0, 1), Pixel { r: 9, g: 10, b: 11, a: 12 });
    assert_eq!(*image.get(1, 1), Pixel { r: 13, g: 14, b: 15, a: 16 });
}

#[test]
fn from_rgba_rejects_a_buffer_that_does_not_match() {
    assert!(Raster::from_rgba(2, 2, &[0u8; 15]).is_none());
    assert!(Raster::from_rgba(2, 2, &[0u8; 12]).is_none());
    assert!(Raster::from_rgba(2, 2, &[0u8; 20]).is_none());
    assert!(Raster::from_rgba(0, 2, &[]).is_none());
    assert!(Raster::from_rgba(2, 0, &[]).is_none());
    assert!(Raster::from_rgba(1, 1, &[0u8; 4]).is_some());
}

#[test]
fn from_rgb_makes_every_pixel_opaque() {
    let bytes = [1u8, 2, 3, 4, 5, 6, 7, 8, 9];
    let image = Raster::from_rgb(3, 1, &bytes).unwrap();
    assert_eq!(*image.get(0, 0), Pixel { r: 1, g: 2, b: 3, a: 255 });
    assert_eq!(*image.get(1, 0), Pixel { r: 4, g: 5, b: 6, a: 255 });
    assert_eq!(*image.get(2, 0), Pixel { r: 7, g: 8, b: 9, a: 255 });
}

#[test]
fn from_rgb_rejects_a_buffer_that_does_not_match() {
    assert!(Raster::from_rgb(3, 1, &[0u8; 8]).is_none());
    assert!(Raster::from_rgb(3, 1, &[0u8; 12]).is_none());
    assert!(Raster::from_rgb(0, 1, &[]).is_none());
    assert!(Raster::from_rgb(1, 3, &[0u8; 9]).is_some());
}

#[test]
fn to_rgba_writes_what_from_rgba_read() {
    let bytes: Vec<u8> = (0u8..24).collect();
    let image = Raster::from_rgba(3, 2, &bytes).unwrap();
    assert_eq!(image.to_rgba(), bytes);
}

#[test]
fn to_rgb_leaves_the_opacity_out() {
    let bytes: Vec<u8> = (0u8..24).collect();
    let image = Raster::from_rgba(3, 2, &bytes).unwrap();
    assert_eq!(
        image.to_rgb(),
        vec![0u8, 1, 2, 4, 5, 6, 8, 9, 10, 12, 13, 14, 16, 17, 18, 20, 21, 22]
    );
}

#[test]
fn opaque_sets_full_opacity() {
    assert_eq!(Pixel::opaque(9, 8, 7), Pixel { r: 9, g: 8, b: 7, a: 255 });
}
