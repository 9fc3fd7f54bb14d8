use edge_vectorizer::pathdata::{decode_path_data, Square};
use edge_vectorizer::{gray, png_vector, process_image, sobel, vectorize, LumaA, RasterImage};

fn solid(width: u32, height: u32, rgba: [u8; 4]) -> RasterImage {
    let mut data = Vec::new();
    for _ in 0..(width * height) {
        data.extend_from_slice(&rgba);
    }
    RasterImage::from_raw(width, height, data).unwrap()
}

fn black_then_white(width: u32, height: u32, black_columns: u32) -> RasterImage {
    let mut data = Vec::new();
    for _y in 0..height {
        for x in 0..width {
            if x < black_columns {
                data.extend_from_slice(&[0, 0, 0, 255]);
            } else {
                data.extend_from_slice(&[255, 255, 255, 255]);
            }
        }
    }
    RasterImage::from_raw(width, height, data).unwrap()
}

#[test]
fn solid_mid_gray_has_no_edges() {
    let img = solid(5, 5, [128, 128, 128, 255]);
    let g = gray(&img);
    assert_eq!(g.width(), 5);
    assert_eq!(g.height(), 5);
    for y in 0..5 {
        for x in 0..5 {
            assert_eq!(g.get_pixel(x, y), Some(LumaA { luma: 102, alpha: 255 }));
        }
    }
    let m = sobel(&g).unwrap();
    assert_eq!(m.width(), 3);
    assert_eq!(m.height(), 3);
    assert_eq!(m.as_raw(), &vec![255u8; 9]);
    let doc = vectorize(&m);
    assert_eq!(doc.width(), 3);
    assert_eq!(doc.height(), 3);
    assert_eq!(doc.paths().len(), 0);
}

#[test]
fn vertical_step_gives_two_columns_of_squares() {
    let img = black_then_white(5, 5, 2);
    let out = match process_image(&img) {
        Ok(out) => out,
        Err(_) => panic!("a 5x5 image is large enough"),
    };
    assert_eq!(out.grayscale.width(), 5);
    assert_eq!(out.grayscale.height(), 5);
    for y in 0..5 {
        for x in 0..5 {
            let luma = if x < 2 { 0 } else { 204 };
            assert_eq!(out.grayscale.get_pixel(x, y), Some(LumaA { luma, alpha: 255 }));
        }
    }
    assert_eq!(out.edges.width(), 3);
    assert_eq!(out.edges.height(), 3);
    // Gx is 816 in the two columns whose neighbourhood straddles the step,
    // far above the cap, and 0 in the column that lies in the white.
    assert_eq!(out.edges.as_raw(), &vec![0, 0, 255, 0, 0, 255, 0, 0, 255]);
    assert!(out.edges.as_raw().iter().any(|s| *s < 255));
    let expected = [(0u32, 0u32), (1, 0), (0, 1), (1, 1), (0, 2), (1, 2)];
    let paths = out.document.paths();
    assert_eq!(out.document.width(), 3);
    assert_eq!(out.document.height(), 3);
    assert_eq!(paths.len(), expected.len());
    for (p, (x, y)) in paths.iter().zip(expected.iter()) {
        assert_eq!(p.x, *x);
        assert_eq!(p.y, *y);
        assert_eq!(p.fill, "black");
        assert_eq!(p.d, format!("M {} {} h 1 v 1 h -1 z", x, y));
        assert_eq!(
            decode_path_data(&p.d),
            Some(Square { x0: *x as u64, y0: *y as u64, x1: *x as u64 + 1, y1: *y as u64 + 1 })
        );
    }
    let doc = png_vector(&img).unwrap();
    assert_eq!(doc.paths(), paths);
}
