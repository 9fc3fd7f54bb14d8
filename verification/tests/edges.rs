use edge_vectorizer::root::capped_nearest_root;
use edge_vectorizer::{sobel, DimensionError, GrayscaleImage, MagnitudeImage};

fn gray_from(width: u32, height: u32, intensities: &[u8]) -> GrayscaleImage {
    let mut data = Vec::new();
    for v in intensities {
        data.push(*v);
        data.push(255);
    }
    GrayscaleImage::from_raw(width, height, data).unwrap()
}

fn patterned(width: u32, height: u32, seed: u32) -> Vec<u8> {
    let mut out = Vec::new();
    let mut state: u32 = seed;
    for _ in 0..(width * height) {
        state = state.wrapping_mul(1664525).wrapping_add(1013904223);
        out.push((state >> 24) as u8);
    }
    out
}

#[test]
fn nearest_root_of_small_numbers() {
    let expected = [0u8, 1, 1, 2, 2, 2, 2, 3, 3, 3, 3, 3, 3, 4, 4, 4, 4];
    for (n, m) in expected.iter().enumerate() {
        assert_eq!(capped_nearest_root(n as u32), *m);
    }
    assert_eq!(capped_nearest_root(100), 10);
    assert_eq!(capped_nearest_root(110), 10);
    assert_eq!(capped_nearest_root(111), 11);
}

#[test]
fn nearest_root_is_capped_at_255() {
    assert_eq!(capped_nearest_root(254 * 255), 254);
    assert_eq!(capped_nearest_root(254 * 255 + 1), 255);
    assert_eq!(capped_nearest_root(255 * 255), 255);
    assert_eq!(capped_nearest_root(255 * 256 + 1), 255);
    assert_eq!(capped_nearest_root(2 * 1020 * 1020), 255);
    assert_eq!(capped_nearest_root(u32::MAX), 255);
}

#[test]
fn nearest_root_agrees_with_rounded_float_root() {
    for n in 0..70000u32 {
        let rounded = (n as f64).sqrt().round().min(255.0) as u8;
        assert_eq!(capped_nearest_root(n), rounded);
    }
}

#[test]
fn sobel_of_three_by_three_is_one_sample() {
    // Gx = 2 * 3 = 6 and Gy = 2 * 4 = 8: magnitude 10.
    let g = gray_from(3, 3, &[0, 0, 0, 0, 9, 3, 0, 4, 0]);
    let m = sobel(&g).unwrap();
    assert_eq!(m.width(), 1);
    assert_eq!(m.height(), 1);
    assert_eq!(m.as_raw(), &vec![245]);
}

#[test]
fn sobel_rounds_the_magnitude_to_nearest() {
    // Gx = 2 and Gy = -2: the magnitude is the root of 8, which is nearer to 3 than to 2.
    let g = gray_from(3, 3, &[0, 0, 2, 0, 0, 0, 0, 0, 0]);
    assert_eq!(sobel(&g).unwrap().as_raw(), &vec![252]);
    // Gx = 1 and Gy = 1: the root of 2 is nearer to 1.
    let g = gray_from(3, 3, &[0, 0, 0, 0, 0, 0, 0, 0, 1]);
    assert_eq!(sobel(&g).unwrap().as_raw(), &vec![254]);
}

#[test]
fn sobel_caps_the_magnitude_and_inverts() {
    let g = gray_from(3, 3, &[0, 0, 255, 0, 0, 255, 0, 0, 255]);
    assert_eq!(sobel(&g).unwrap().as_raw(), &vec![0]);
    // Gx = -255: exactly at the cap.
    let g = gray_from(3, 3, &[255, 0, 0, 0, 0, 0, 0, 0, 0]);
    assert_eq!(sobel(&g).unwrap().as_raw(), &vec![0]);
    // Gx = 180, Gy = 180: magnitude 255 after rounding 254.558.
    let g = gray_from(3, 3, &[0, 0, 0, 0, 0, 0, 0, 0, 180]);
    assert_eq!(sobel(&g).unwrap().as_raw(), &vec![0]);
    // Gx = 100, Gy = 0.
    let g = gray_from(3, 3, &[0, 0, 0, 0, 0, 50, 0, 0, 0]);
    assert_eq!(sobel(&g).unwrap().as_raw(), &vec![155]);
}

#[test]
fn sobel_ignores_the_centre_and_alpha() {
    let a = gray_from(3, 3, &[1, 2, 3, 4, 0, 6, 7, 8, 9]);
    let b = gray_from(3, 3, &[1, 2, 3, 4, 255, 6, 7, 8, 9]);
    assert_eq!(sobel(&a).unwrap().as_raw(), sobel(&b).unwrap().as_raw());
    let mut data = Vec::new();
    for (k, v) in [1u8, 2, 3, 4, 0, 6, 7, 8, 9].iter().enumerate() {
        data.push(*v);
        data.push(k as u8);
    }
    let c = GrayscaleImage::from_raw(3, 3, data).unwrap();
    assert_eq!(sobel(&a).unwrap().as_raw(), sobel(&c).unwrap().as_raw());
}

#[test]
fn sobel_shrinks_by_two_in_each_axis() {
    for (width, height) in [(3u32, 3u32), (3, 8), (8, 3), (5, 5), (17, 11)] {
        let g = gray_from(width, height, &patterned(width, height, 7));
        let m = sobel(&g).unwrap();
        assert_eq!(m.width(), width - 2);
        assert_eq!(m.height(), height - 2);
        assert_eq!(m.as_raw().len() as u32, (width - 2) * (height - 2));
    }
}

#[test]
fn sobel_refuses_images_without_a_neighbourhood() {
    for (width, height) in [(0u32, 0u32), (1, 1), (2, 2), (2, 9), (9, 2), (0, 5), (3, 0), (1, 3)] {
        let g = gray_from(width, height, &patterned(width, height, 3));
        match sobel(&g) {
            Ok(_) => panic!("{}x{} has no 3x3 neighbourhood", width, height),
            Err(e) => assert_eq!(e, DimensionError { width, height }),
        }
    }
}

#[test]
fn sobel_on_one_intensity_is_all_white() {
    for v in [0u8, 1, 102, 204, 255] {
        let g = gray_from(6, 4, &vec![v; 24]);
        let m = sobel(&g).unwrap();
        assert_eq!(m.as_raw(), &vec![255u8; 8]);
    }
}

#[test]
fn sobel_agrees_with_the_kernels_in_floats() {
    let (width, height) = (19u32, 14u32);
    let values = patterned(width, height, 99);
    let g = gray_from(width, height, &values);
    let m = sobel(&g).unwrap();
    let at = |x: u32, y: u32| values[(y * width + x) as usize] as i32;
    for j in 0..height - 2 {
        for i in 0..width - 2 {
            let gx = -at(i, j) - 2 * at(i, j + 1) - at(i, j + 2)
                + at(i + 2, j)
                + 2 * at(i + 2, j + 1)
                + at(i + 2, j + 2);
            let gy = -at(i, j) - 2 * at(i + 1, j) - at(i + 2, j)
                + at(i, j + 2)
                + 2 * at(i + 1, j + 2)
                + at(i + 2, j + 2);
            let magnitude = ((gx * gx + gy * gy) as f64).sqrt().round().min(255.0) as u8;
            assert_eq!(m.get_sample(i, j), Some(255 - magnitude));
        }
    }
    assert_eq!(m.get_sample(width - 2, 0), None);
    assert_eq!(m.get_sample(0, height - 2), None);
}

#[test]
fn sobel_rows_are_laid_out_in_order() {
    // A horizontal step: rows 0..3 dark, rows 3.. light. Only the output
    // rows whose neighbourhood straddles the step see a gradient.
    let (width, height) = (4u32, 7u32);
    let mut values = Vec::new();
    for y in 0..height {
        for _ in 0..width {
            values.push(if y < 3 { 0 } else { 10 });
        }
    }
    let m = sobel(&gray_from(width, height, &values)).unwrap();
    assert_eq!(m.as_raw(), &vec![255, 255, 215, 215, 215, 215, 255, 255, 255, 255]);
}

#[test]
fn magnitude_from_raw_refuses_other_lengths() {
    assert!(MagnitudeImage::from_raw(3, 2, vec![0; 6]).is_some());
    assert!(MagnitudeImage::from_raw(3, 2, vec![0; 5]).is_none());
    assert!(MagnitudeImage::from_raw(3, 2, vec![0; 7]).is_none());
    let m = MagnitudeImage::from_raw(3, 2, vec![1, 2, 3, 4, 5, 6]).unwrap();
    assert_eq!(m.get_sample(2, 0), Some(3));
    assert_eq!(m.get_sample(0, 1), Some(4));
    assert_eq!(m.get_sample(3, 0), None);
    assert_eq!(m.into_raw(), vec![1, 2, 3, 4, 5, 6]);
}
