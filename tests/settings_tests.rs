use mflm::color::{rgb, ParseColorError};
use mflm::settings::{
    default_form_height, default_form_width, default_gap_below_session_px, default_gap_below_username_px,
    default_heading_font_size_px, default_main_font_size_px, default_password_char, default_row_h,
    default_session_left_arrow, default_session_right_arrow, default_text_align, Colors, Fonts, Login, Settings,
    TextAlign, Ui,
};

#[test]
fn defaults() {
    assert_eq!(default_gap_below_session_px(), 64);
    assert_eq!(default_gap_below_username_px(), 32);
    assert_eq!(default_row_h(), 72);
    assert_eq!(default_password_char(), "*");
    assert_eq!(default_text_align(), TextAlign::Center);
    assert_eq!(default_form_width(), 512);
    assert_eq!(default_form_height(), 168);
    assert_eq!(default_session_left_arrow(), "\u{276e}");
    assert_eq!(default_session_right_arrow(), "\u{276f}");
    assert_eq!(default_main_font_size_px(), 42);
    assert_eq!(default_heading_font_size_px(), 72);
    let ui = Ui::default();
    assert_eq!(ui.row_h, 72);
    assert_eq!(ui.password_char, "*");
    let f = Fonts::default();
    assert_eq!((f.main.as_str(), f.heading.as_str()), ("Monospace", "Sans"));
    let l = Login::default();
    assert!(l.username.is_none() && l.target.is_none());
}

#[test]
fn default_colors_resolve() {
    let c = Settings::default().resolve_colors().unwrap();
    assert_eq!(c.foreground, rgb(255, 255, 255));
    assert_eq!(c.background, rgb(0, 0, 0));
    assert_eq!(c.neutral, rgb(191, 191, 191));
    assert_eq!(c.selected, rgb(191, 191, 63));
    assert_eq!(c.error, rgb(191, 63, 63));
}

#[test]
fn first_bad_colour_gives_the_error() {
    let mut s = Settings::default();
    s.colors = Colors { neutral: "#12".to_string(), error: "zzzzzz".to_string(), ..Colors::default() };
    match s.resolve_colors() {
        Err(ParseColorError::InvalidLength { len }) => assert_eq!(len, 2),
        other => panic!("unexpected result: {other:?}"),
    }
    s.colors.neutral = "#121212".to_string();
    match s.resolve_colors() {
        Err(ParseColorError::InvalidHex(t)) => assert_eq!(t, "zzzzzz"),
        other => panic!("unexpected result: {other:?}"),
    }
}
