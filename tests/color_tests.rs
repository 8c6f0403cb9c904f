use canvas_sim::color::{mix_colors, mix_rgb, parse_rgb, Rgb, FALLBACK_COLOR};

#[test]
fn mixes_two_greys() {
    assert_eq!(mix_colors("rgb(100,100,100)", "rgb(200,200,200)"), "rgb(150,150,150)");
}

#[test]
fn mix_rounds_down() {
    assert_eq!(mix_colors("rgb(1, 2, 3)", "rgb(2, 3, 4)"), "rgb(1,2,3)");
}

#[test]
fn malformed_left_gives_fallback() {
    assert_eq!(mix_colors("blue", "rgb(200,200,200)"), FALLBACK_COLOR);
    assert_eq!(FALLBACK_COLOR, "rgba(150, 150, 220, 0.5)");
}

#[test]
fn malformed_right_gives_fallback() {
    assert_eq!(mix_colors("rgb(1,2,3)", "rgb(1,2)"), FALLBACK_COLOR);
    assert_eq!(mix_colors("rgb(1,2,3)", "rgb(1,2,3,4)"), FALLBACK_COLOR);
    assert_eq!(mix_colors("rgb(1,2,3)", "rgb(1,2,256)"), FALLBACK_COLOR);
}

#[test]
fn parses_with_white_space() {
    assert_eq!(parse_rgb("  rgb( 12 ,  34,56 ) \n"), Some((12, 34, 56)));
    assert_eq!(parse_rgb("rgb(+7,0,255)"), Some((7, 0, 255)));
    assert_eq!(parse_rgb("rgb(007,0,255)"), Some((7, 0, 255)));
}

#[test]
fn rejects_bad_channels() {
    assert_eq!(parse_rgb("rgb(-1,0,0)"), None);
    assert_eq!(parse_rgb("rgb(,0,0)"), None);
    assert_eq!(parse_rgb("rgb(1 2,0,0)"), None);
    assert_eq!(parse_rgb("rgb(+,0,0)"), None);
    assert_eq!(parse_rgb("rgba(1,2,3)"), None);
    assert_eq!(parse_rgb("rgb(1,2,3"), None);
    assert_eq!(parse_rgb(""), None);
}

#[test]
fn prints_and_averages() {
    let c = mix_rgb(Rgb { r: 255, g: 0, b: 9 }, Rgb { r: 254, g: 10, b: 100 });
    assert_eq!(c, Rgb { r: 254, g: 5, b: 54 });
    assert_eq!(c.to_css(), "rgb(254,5,54)");
}

#[test]
fn printed_colour_reads_back() {
    for c in [Rgb { r: 0, g: 9, b: 10 }, Rgb { r: 99, g: 100, b: 255 }, Rgb { r: 7, g: 205, b: 50 }] {
        assert_eq!(parse_rgb(&c.to_css()), Some((c.r, c.g, c.b)));
    }
    let m = mix_colors("rgb(10, 20, 30)", "rgb(200,201,202)");
    assert_eq!(parse_rgb(&m), Some((105, 110, 116)));
}
