use vornix_banner::presets::ferris::{make_frame, walking_ferris_frames};
use vornix_banner::{rgb, Attribute, BuiltinFont, Color, FigletOptions, FontSource, Style};

#[test]
fn test_style_builders() {
    let s = Style::new()
        .fg(rgb(1, 2, 3))
        .bg(Color::Rgb(4, 5, 6))
        .bold()
        .underline();
    assert_eq!(s.foreground, Some(Color::Rgb(1, 2, 3)));
    assert_eq!(s.background, Some(Color::Rgb(4, 5, 6)));
    assert!(s.has_attribute(Attribute::Bold));
    assert!(!s.has_attribute(Attribute::Italic));
    assert!(s.has_attribute(Attribute::Underline));
}

#[test]
fn test_plain_style_applies_nothing() {
    let s = Style::new();
    assert_eq!(s.apply("hello"), "hello");
    assert_eq!(s.apply(""), "");
}

#[test]
fn test_font_source_default() {
    assert!(matches!(
        FontSource::default(),
        FontSource::Builtin(BuiltinFont::Standard)
    ));
}

#[test]
fn test_figlet_options_default() {
    let o = FigletOptions::default();
    assert!(o.width.is_none());
}

#[test]
fn test_make_frame() {
    let f = make_frame(&["ab", "c"]);
    assert_eq!(f, vec![String::from("ab"), String::from("c")]);
}

#[test]
fn test_walking_ferris_frames() {
    let frames = walking_ferris_frames();
    assert_eq!(frames.len(), 4);
    assert_eq!(frames[0], frames[2]);
    assert_ne!(frames[0], frames[1]);
    assert_ne!(frames[1], frames[3]);
    for frame in &frames {
        assert_eq!(frame.len(), 8);
    }
}
