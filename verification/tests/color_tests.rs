use glance_github_graph::color::derive_color_shades_with_bg;
use glance_github_graph::color::hex_to_rgb;
use glance_github_graph::color::hsl_string;

#[test]
fn hex_parsing_accepts_six_digits() {
    assert_eq!(hex_to_rgb("#ebedf0"), Ok((235, 237, 240)));
    assert_eq!(hex_to_rgb("40c463"), Ok((64, 196, 99)));
    assert_eq!(hex_to_rgb("#EBEDF0"), Ok((235, 237, 240)));
    assert_eq!(hex_to_rgb("##40c463"), Ok((64, 196, 99)));
}

#[test]
fn hex_parsing_rejects_malformed_input() {
    assert_eq!(hex_to_rgb("zz0000"), Err(()));
    assert_eq!(hex_to_rgb("#12345"), Err(()));
    assert_eq!(hex_to_rgb("#1234567"), Err(()));
    assert_eq!(hex_to_rgb(""), Err(()));
    assert_eq!(hex_to_rgb("#"), Err(()));
}

#[test]
fn gradient_has_five_shades_from_background() {
    // default background #ebedf0 and foreground #40c463
    let shades = derive_color_shades_with_bg("#40c463", "#ebedf0", false);
    assert_eq!(shades.len(), 5);
    // shade 0 is the background's hue/saturation/lightness at t = 0
    assert_eq!(shades[0], "hsl(216, 14%, 93%)");
    // shade 4 is the foreground exactly
    assert_eq!(shades[4], "hsl(136, 53%, 51%)");
}

#[test]
fn gradient_snaps_hue_after_first_shade() {
    let shades = derive_color_shades_with_bg("#40c463", "#ebedf0", false);
    // every shade after the first carries the foreground hue 136
    for i in 1..5 {
        assert!(shades[i].starts_with("hsl(136, "), "shade {}: {}", i, shades[i]);
    }
}

#[test]
fn gradient_falls_back_on_malformed_foreground() {
    let shades = derive_color_shades_with_bg("zz0000", "#ebedf0", false);
    assert_eq!(
        shades,
        vec![
            "#ebedf0".to_string(),
            "hsl(0, 0%, 70%)".to_string(),
            "hsl(0, 0%, 50%)".to_string(),
            "hsl(0, 0%, 35%)".to_string(),
            "hsl(0, 0%, 20%)".to_string(),
        ]
    );
}

#[test]
fn gradient_falls_back_on_malformed_background() {
    let shades = derive_color_shades_with_bg("#40c463", "not-a-color", false);
    assert_eq!(shades.len(), 5);
    assert_eq!(shades[0], "not-a-color");
    assert_eq!(shades[1], "hsl(0, 0%, 70%)");
}

#[test]
fn gradient_with_hue_transition_interpolates_hue() {
    let shades = derive_color_shades_with_bg("#40c463", "#ebedf0", true);
    assert_eq!(shades.len(), 5);
    // background hue 216, foreground hue 136: the middle shade sits between
    assert_eq!(shades[0], "hsl(216, 14%, 93%)");
    assert_eq!(shades[4], "hsl(136, 53%, 51%)");
}

#[test]
fn hsl_string_formats_components() {
    assert_eq!(hsl_string(216, 14, 93), "hsl(216, 14%, 93%)");
    assert_eq!(hsl_string(0, 0, 100), "hsl(0, 0%, 100%)");
}
