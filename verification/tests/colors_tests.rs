use fractals::colors::{
    color_map_from_str, gradient_stops_from_lines, ColorMapChoice, ColorMapFromFile,
};
use fractals::FractalError;

fn lines(v: &[&str]) -> Vec<String> {
    v.iter().map(|s| s.to_string()).collect()
}

#[test]
fn selector_hot() {
    assert!(matches!(color_map_from_str("hot"), Ok(ColorMapChoice::Hot(_))));
}

#[test]
fn selector_hsv() {
    assert!(matches!(color_map_from_str("hsv"), Ok(ColorMapChoice::Hsv(_))));
}

#[test]
fn selector_cosine_constants() {
    match color_map_from_str("cosine") {
        Ok(ColorMapChoice::Cosine(m)) => {
            assert_eq!(m.a, [0.5f32.to_bits(); 3]);
            assert_eq!(m.b, [0.5f32.to_bits(); 3]);
            assert_eq!(m.d, [0.477f32.to_bits(), 0.573f32.to_bits(), 0.637f32.to_bits()]);
        },
        _ => panic!("expected the cosine colormap"),
    }
}

#[test]
fn selector_mapfile_path() {
    match color_map_from_str("mapfile:palettes/fire.map") {
        Ok(ColorMapChoice::MapFile(p)) => assert_eq!(p, "palettes/fire.map"),
        _ => panic!("expected a palette-file colormap"),
    }
}

#[test]
fn selector_gpf_path() {
    match color_map_from_str("gpf:sunset.gpf") {
        Ok(ColorMapChoice::Gpf(p)) => assert_eq!(p, "sunset.gpf"),
        _ => panic!("expected a gradient-file colormap"),
    }
}

#[test]
fn selector_unknown_is_rejected() {
    assert!(matches!(color_map_from_str("viridis"), Err(FractalError::Configuration)));
    assert!(matches!(color_map_from_str(""), Err(FractalError::Configuration)));
}

#[test]
fn palette_parses_three_columns() {
    let cm = ColorMapFromFile::from_lines(&lines(&["255 0 0", "0\t255 0", "  1  2  3  "]))
        .expect("well-formed palette");
    assert_eq!(cm.colors, vec![(255, 0, 0), (0, 255, 0), (1, 2, 3)]);
}

#[test]
fn palette_accepts_plus_signs_and_leading_zeros() {
    let cm = ColorMapFromFile::from_lines(&lines(&["+12 007 0"])).expect("parseable values");
    assert_eq!(cm.colors, vec![(12, 7, 0)]);
}

#[test]
fn palette_uses_first_three_of_more_columns() {
    let cm = ColorMapFromFile::from_lines(&lines(&["1 2 3 4 5"])).expect("numeric extras");
    assert_eq!(cm.colors, vec![(1, 2, 3)]);
}

#[test]
fn palette_rejects_short_line() {
    assert!(matches!(
        ColorMapFromFile::from_lines(&lines(&["255 0 0", "1 2"])),
        Err(FractalError::Parse)
    ));
}

#[test]
fn palette_rejects_empty_line() {
    assert!(matches!(
        ColorMapFromFile::from_lines(&lines(&["255 0 0", ""])),
        Err(FractalError::Parse)
    ));
}

#[test]
fn palette_rejects_value_out_of_range() {
    assert!(matches!(
        ColorMapFromFile::from_lines(&lines(&["256 0 0"])),
        Err(FractalError::Parse)
    ));
}

#[test]
fn palette_rejects_non_numeric_extra_column() {
    // Every field of a line is parsed, even past the first three.
    assert!(matches!(
        ColorMapFromFile::from_lines(&lines(&["1 2 3 oops"])),
        Err(FractalError::Parse)
    ));
}

#[test]
fn empty_palette_is_empty() {
    let cm = ColorMapFromFile::from_lines(&Vec::new()).expect("no lines");
    assert!(cm.colors.is_empty());
}

#[test]
fn gradient_skips_comments_and_keeps_tokens() {
    let stops = gradient_stops_from_lines(&lines(&[
        "# gradient palette",
        "0.0 1.0 0.0 0.0",
        "# midpoint",
        "0.5 0 1 0.25",
        "1.0 0.0 0.0 1.0",
    ]))
    .expect("well-formed gradient");
    assert_eq!(stops.len(), 3);
    assert_eq!(stops[0].position, "0.0");
    assert_eq!(stops[0].red, "1.0");
    assert_eq!(stops[1].position, "0.5");
    assert_eq!(stops[1].blue, "0.25");
    assert_eq!(stops[2].blue, "1.0");
}

#[test]
fn gradient_rejects_short_line() {
    assert!(matches!(
        gradient_stops_from_lines(&lines(&["0.0 1.0 0.0"])),
        Err(FractalError::Parse)
    ));
}
