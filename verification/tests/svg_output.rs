use edge_vectorizer::{to_svg, vectorize, MagnitudeImage};

#[test]
fn document_without_shapes_is_a_bare_canvas() {
    let m = MagnitudeImage::from_raw(3, 3, vec![255; 9]).unwrap();
    let out = to_svg(&vectorize(&m));
    assert_eq!(
        out.to_string(),
        "<svg height=\"3\" viewBox=\"0 0 3 3\" width=\"3\" xmlns=\"http://www.w3.org/2000/svg\"/>"
    );
}

#[test]
fn document_declares_canvas_and_paths() {
    let m = MagnitudeImage::from_raw(12, 2, {
        let mut samples = vec![255u8; 24];
        samples[0] = 0;
        samples[11] = 99;
        samples[12 + 10] = 50;
        samples
    })
    .unwrap();
    let out = to_svg(&vectorize(&m));
    let text = out.to_string();
    let lines: Vec<&str> = text.lines().collect();
    assert_eq!(
        lines,
        vec![
            "<svg height=\"2\" viewBox=\"0 0 12 2\" width=\"12\" xmlns=\"http://www.w3.org/2000/svg\">",
            "<path d=\"M 0 0 h 1 v 1 h -1 z\" fill=\"black\"/>",
            "<path d=\"M 11 0 h 1 v 1 h -1 z\" fill=\"black\"/>",
            "<path d=\"M 10 1 h 1 v 1 h -1 z\" fill=\"black\"/>",
            "</svg>",
        ]
    );
}

#[test]
fn document_elements_carry_exactly_the_declared_attributes() {
    let m = MagnitudeImage::from_raw(2, 1, vec![0, 0]).unwrap();
    let out = to_svg(&vectorize(&m));
    let attributes = out.get_attributes();
    assert_eq!(attributes.len(), 4);
    assert_eq!(attributes["viewBox"].to_string(), "0 0 2 1");
    assert_eq!(attributes["width"].to_string(), "2");
    assert_eq!(attributes["height"].to_string(), "1");
    assert_eq!(attributes["xmlns"].to_string(), "http://www.w3.org/2000/svg");
    let children = out.get_children();
    assert_eq!(children.len(), 2);
    for (k, child) in children.iter().enumerate() {
        assert_eq!(child.get_name(), "path");
        let attributes = child.get_attributes().unwrap();
        assert_eq!(attributes.len(), 2);
        assert_eq!(attributes["fill"].to_string(), "black");
        assert_eq!(attributes["d"].to_string(), format!("M {} 0 h 1 v 1 h -1 z", k));
    }
}
