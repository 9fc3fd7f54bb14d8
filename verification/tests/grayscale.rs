use edge_vectorizer::gray::luma_of;
use edge_vectorizer::{gray, GrayscaleImage, LumaA, RasterImage, Rgba};

fn patterned(width: u32, height: u32) -> RasterImage {
    let mut data = Vec::new();
    let mut state: u32 = 12345;
    for _ in 0..(width * height * 4) {
        state = state.wrapping_mul(1664525).wrapping_add(1013904223);
        data.push((state >> 24) as u8);
    }
    RasterImage::from_raw(width, height, data).unwrap()
}

#[test]
fn luma_of_known_colours() {
    assert_eq!(luma_of(128, 128, 128), 102);
    assert_eq!(luma_of(255, 255, 255), 204);
    assert_eq!(luma_of(0, 0, 0), 0);
    assert_eq!(luma_of(10, 20, 30), 15);
    assert_eq!(luma_of(255, 0, 0), 51);
    assert_eq!(luma_of(0, 255, 0), 127);
    assert_eq!(luma_of(0, 0, 255), 25);
    assert_eq!(luma_of(4, 0, 0), 0);
    assert_eq!(luma_of(5, 0, 0), 1);
    assert_eq!(luma_of(0, 1, 5), 1);
}

#[test]
fn luma_of_agrees_with_weighted_sum_in_floats() {
    let mut r: u32 = 0;
    while r < 256 {
        let mut g: u32 = 0;
        while g < 256 {
            for b in 0..256u32 {
                let weighted = (0.2 * r as f32 + 0.5 * g as f32 + 0.1 * b as f32) as u8;
                assert_eq!(luma_of(r as u8, g as u8, b as u8), weighted);
            }
            g += 3;
        }
        r += 5;
    }
}

#[test]
fn gray_keeps_dimensions_and_alpha() {
    for (width, height) in [(1u32, 1u32), (1, 7), (7, 1), (4, 3), (13, 9)] {
        let img = patterned(width, height);
        let g = gray(&img);
        assert_eq!(g.width(), width);
        assert_eq!(g.height(), height);
        assert_eq!(g.as_raw().len() as u32, 2 * width * height);
        for y in 0..height {
            for x in 0..width {
                let p = img.get_pixel(x, y).unwrap();
                let q = g.get_pixel(x, y).unwrap();
                assert_eq!(q.alpha, p.a);
                assert_eq!(q.luma, luma_of(p.r, p.g, p.b));
            }
        }
    }
}

#[test]
fn gray_of_empty_image_is_empty() {
    let img = RasterImage::from_raw(0, 0, Vec::new()).unwrap();
    let g = gray(&img);
    assert_eq!(g.width(), 0);
    assert_eq!(g.height(), 0);
    assert!(g.as_raw().is_empty());
    let img = RasterImage::from_raw(0, 9, Vec::new()).unwrap();
    let g = gray(&img);
    assert_eq!(g.width(), 0);
    assert_eq!(g.height(), 9);
}

#[test]
fn gray_of_one_colour_is_one_intensity() {
    let mut data = Vec::new();
    for _ in 0..(6 * 4) {
        data.extend_from_slice(&[200, 100, 50, 7]);
    }
    let img = RasterImage::from_raw(6, 4, data).unwrap();
    let g = gray(&img);
    for y in 0..4 {
        for x in 0..6 {
            assert_eq!(g.get_pixel(x, y), Some(LumaA { luma: 95, alpha: 7 }));
        }
    }
}

#[test]
fn raster_pixels_are_addressed_row_by_row() {
    let data: Vec<u8> = (0..24).collect();
    let img = RasterImage::from_raw(3, 2, data.clone()).unwrap();
    assert_eq!(img.width(), 3);
    assert_eq!(img.height(), 2);
    assert_eq!(img.get_pixel(0, 0), Some(Rgba { r: 0, g: 1, b: 2, a: 3 }));
    assert_eq!(img.get_pixel(2, 0), Some(Rgba { r: 8, g: 9, b: 10, a: 11 }));
    assert_eq!(img.get_pixel(0, 1), Some(Rgba { r: 12, g: 13, b: 14, a: 15 }));
    assert_eq!(img.get_pixel(2, 1), Some(Rgba { r: 20, g: 21, b: 22, a: 23 }));
    assert_eq!(img.get_pixel(3, 0), None);
    assert_eq!(img.get_pixel(0, 2), None);
    assert_eq!(img.as_raw(), &data);
    assert_eq!(img.into_raw(), data);
}

#[test]
fn raster_from_raw_refuses_other_lengths() {
    assert!(RasterImage::from_raw(2, 2, vec![0; 16]).is_some());
    assert!(RasterImage::from_raw(2, 2, vec![0; 15]).is_none());
    assert!(RasterImage::from_raw(2, 2, vec![0; 17]).is_none());
    assert!(RasterImage::from_raw(0, 5, Vec::new()).is_some());
    assert!(RasterImage::from_raw(0, 5, vec![0; 4]).is_none());
    assert!(RasterImage::from_raw(u32::MAX, u32::MAX, vec![0; 4]).is_none());
}

#[test]
fn grayscale_from_raw_refuses_other_lengths() {
    assert!(GrayscaleImage::from_raw(3, 2, vec![0; 12]).is_some());
    assert!(GrayscaleImage::from_raw(3, 2, vec![0; 11]).is_none());
    assert!(GrayscaleImage::from_raw(3, 2, vec![0; 24]).is_none());
    let g = GrayscaleImage::from_raw(2, 1, vec![1, 2, 3, 4]).unwrap();
    assert_eq!(g.get_pixel(1, 0), Some(LumaA { luma: 3, alpha: 4 }));
    assert_eq!(g.get_pixel(2, 0), None);
    assert_eq!(g.get_pixel(0, 1), None);
    assert_eq!(g.into_raw(), vec![1, 2, 3, 4]);
}
