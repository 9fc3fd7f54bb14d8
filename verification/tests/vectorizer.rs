use edge_vectorizer::{vectorize, MagnitudeImage, THRESHOLD};

fn patterned(width: u32, height: u32, seed: u32) -> Vec<u8> {
    let mut out = Vec::new();
    let mut state: u32 = seed;
    for _ in 0..(width * height) {
        state = state.wrapping_mul(1664525).wrapping_add(1013904223);
        out.push((state >> 24) as u8);
    }
    out
}

#[test]
fn threshold_is_one_hundred() {
    assert_eq!(THRESHOLD, 100);
}

#[test]
fn samples_at_the_threshold_are_skipped() {
    let m = MagnitudeImage::from_raw(5, 1, vec![99, 100, 0, 255, 101]).unwrap();
    let doc = vectorize(&m);
    assert_eq!(doc.width(), 5);
    assert_eq!(doc.height(), 1);
    let anchors: Vec<(u32, u32)> = doc.paths().iter().map(|p| (p.x, p.y)).collect();
    assert_eq!(anchors, vec![(0, 0), (2, 0)]);
}

#[test]
fn squares_come_in_scan_order() {
    let m = MagnitudeImage::from_raw(3, 3, vec![0, 200, 0, 200, 0, 200, 0, 0, 200]).unwrap();
    let doc = vectorize(&m);
    let anchors: Vec<(u32, u32)> = doc.paths().iter().map(|p| (p.x, p.y)).collect();
    assert_eq!(anchors, vec![(0, 0), (2, 0), (1, 1), (0, 2), (1, 2)]);
    for p in doc.paths() {
        assert_eq!(p.fill, "black");
        assert_eq!(p.d, format!("M {} {} h 1 v 1 h -1 z", p.x, p.y));
    }
}

#[test]
fn one_square_for_each_sample_below_threshold() {
    for (width, height, seed) in [(1u32, 1u32, 1u32), (7, 5, 2), (16, 16, 3), (31, 2, 4)] {
        let samples = patterned(width, height, seed);
        let m = MagnitudeImage::from_raw(width, height, samples.clone()).unwrap();
        let doc = vectorize(&m);
        let count = samples.iter().filter(|s| **s < 100).count();
        assert_eq!(doc.paths().len(), count);
        let mut expected = Vec::new();
        for y in 0..height {
            for x in 0..width {
                if samples[(y * width + x) as usize] < 100 {
                    expected.push((x, y));
                }
            }
        }
        let anchors: Vec<(u32, u32)> = doc.paths().iter().map(|p| (p.x, p.y)).collect();
        assert_eq!(anchors, expected);
        for p in doc.paths() {
            assert!(p.x < doc.width());
            assert!(p.y < doc.height());
        }
    }
}

#[test]
fn empty_image_gives_empty_document() {
    let m = MagnitudeImage::from_raw(0, 0, Vec::new()).unwrap();
    let doc = vectorize(&m);
    assert_eq!(doc.width(), 0);
    assert_eq!(doc.height(), 0);
    assert!(doc.paths().is_empty());
}

#[test]
fn all_dark_image_gives_a_square_for_every_pixel() {
    let m = MagnitudeImage::from_raw(4, 3, vec![0; 12]).unwrap();
    let doc = vectorize(&m);
    assert_eq!(doc.paths().len(), 12);
    assert_eq!((doc.paths()[11].x, doc.paths()[11].y), (3, 2));
    assert_eq!(doc.paths()[11].d, "M 3 2 h 1 v 1 h -1 z");
}
