//! Colors.
use hew::ui::style::Color;
use hew::ui::theme::{Rgb, SyntaxColors, adapt_color, dist2, fallback, resolve, rgb_to_ansi256};

#[test]
fn truecolor_passes_rgb_through_unchanged() {
    assert_eq!(adapt_color(Color::Rgb(20, 42, 24), true), Color::Rgb(20, 42, 24));
    // Named colors are never touched, in either mode.
    assert_eq!(adapt_color(Color::Red, false), Color::Red);
    assert_eq!(adapt_color(Color::Reset, false), Color::Reset);
}

#[test]
fn non_truecolor_downsamples_rgb_to_indexed() {
    // Pure colors land on their cube corners.
    assert_eq!(adapt_color(Color::Rgb(0, 0, 0), false), Color::Indexed(16));
    assert_eq!(adapt_color(Color::Rgb(255, 255, 255), false), Color::Indexed(231));
    assert_eq!(adapt_color(Color::Rgb(255, 0, 0), false), Color::Indexed(196));
    assert_eq!(adapt_color(Color::Rgb(0, 255, 0), false), Color::Indexed(46));
    assert_eq!(adapt_color(Color::Rgb(0, 0, 255), false), Color::Indexed(21));
}

#[test]
fn mid_gray_prefers_the_grayscale_ramp() {
    // A neutral gray is closer to the 24-step ramp than any cube corner.
    let idx = match adapt_color(Color::Rgb(128, 128, 128), false) {
        Color::Indexed(i) => i,
        other => panic!("expected indexed, got {other:?}"),
    };
    assert!(
        (232..=255).contains(&idx),
        "expected grayscale ramp, got {idx}"
    );
}

#[test]
fn grayscale_ramp_rounds_to_nearest_step() {
    // avg 17 is closer to gray step 1 (value 18 -> index 233) than step 0
    // (value 8 -> index 232); flooring would wrongly pick 232.
    assert_eq!(rgb_to_ansi256(17, 17, 17), 233);
    // avg 12 -> step 0 (8) is nearer than step 1 (18).
    assert_eq!(rgb_to_ansi256(12, 12, 12), 232);
}

#[test]
fn adapt_downsamples_rgb_fields_but_keeps_non_rgb() {
    let dark = fallback().adapt(false);
    // Rgb fields become Indexed...
    assert!(matches!(dark.cursor_bg, Color::Indexed(_)));
    assert!(matches!(dark.removed, Color::Indexed(_)));
    // ...while a non-Rgb color (Reset) is passed through unchanged.
    assert_eq!(dark.none, Color::Reset);
    // Truecolor adapt is a faithful pass-through.
    let bright = fallback().adapt(true);
    assert_eq!(bright.cursor_bg, fallback().cursor_bg);
}

#[test]
fn squared_distances() {
    assert_eq!(dist2(Rgb { r: 0, g: 0, b: 0 }, Rgb { r: 0, g: 0, b: 0 }), 0);
    assert_eq!(dist2(Rgb { r: 255, g: 255, b: 255 }, Rgb { r: 0, g: 0, b: 0 }), 195075);
    assert_eq!(dist2(Rgb { r: 1, g: 2, b: 3 }, Rgb { r: 4, g: 6, b: 3 }), 25);
}

#[test]
fn colors_that_a_theme_leaves_open() {
    let none = SyntaxColors {
        background: None,
        foreground: None,
        accent: None,
        line_highlight: None,
        selection: None,
        comment: None,
        keyword: None,
        string: None,
        numeric: None,
        markup_inserted: None,
        diff_inserted: None,
        markup_deleted: None,
        diff_deleted: None,
    };
    let c = resolve(&none);
    assert_eq!(c.comment, None);
    assert_eq!(c.highlight, None);
    assert_ne!(c.fg, c.bg);
    assert_ne!(c.added, c.bg);
    assert_ne!(c.removed, c.bg);
    let some = SyntaxColors {
        background: Some(Rgb { r: 1, g: 2, b: 3 }),
        foreground: Some(Rgb { r: 200, g: 201, b: 202 }),
        diff_inserted: Some(Rgb { r: 10, g: 200, b: 10 }),
        diff_deleted: Some(Rgb { r: 200, g: 10, b: 10 }),
        ..none
    };
    let c = resolve(&some);
    assert_eq!((c.bg, c.fg), (Rgb { r: 1, g: 2, b: 3 }, Rgb { r: 200, g: 201, b: 202 }));
    assert_eq!((c.added, c.removed), (Rgb { r: 10, g: 200, b: 10 }, Rgb { r: 200, g: 10, b: 10 }));
}

#[test]
fn no_step_of_the_ramp_is_nearer_to_a_gray() {
    for v in 0..=255u8 {
        let idx = rgb_to_ansi256(v, v, v);
        if idx >= 232 {
            let off = |step: u8| (8 + 10 * i32::from(step) - i32::from(v)).abs();
            assert!((0..24u8).all(|step| off(idx - 232) <= off(step)), "{v}");
        }
    }
    assert_eq!(rgb_to_ansi256(238, 238, 238), 255);
}
