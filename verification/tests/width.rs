use owo_colors::OwoColorize;
use vornix_banner::utils::get_line_width_accurate;

#[test]
fn test_width_no_ansi_ascii() {
    assert_eq!(get_line_width_accurate("hello"), 5);
}

#[test]
fn test_width_no_ansi_unicode() {
    assert_eq!(get_line_width_accurate("你好"), 4);
    assert_eq!(get_line_width_accurate("🦀"), 2);
    assert_eq!(get_line_width_accurate("hello你好🦀"), 5 + 4 + 2);
}

#[test]
fn test_width_with_ansi() {
    let styled_text = "hello".red().bold().to_string();
    assert_eq!(get_line_width_accurate(&styled_text), 5);

    let complex_styled = format!("你好 {}", "world".blue().on_green());
    assert_eq!(get_line_width_accurate(&complex_styled), 4 + 1 + 5);
}

#[test]
fn test_width_empty_string() {
    assert_eq!(get_line_width_accurate(""), 0);
    assert_eq!(get_line_width_accurate(&"".red().to_string()), 0);
}

#[test]
fn test_width_of_library_styled_text() {
    let style = vornix_banner::Style::new()
        .fg(vornix_banner::rgb(222, 100, 40))
        .bg(vornix_banner::rgb(30, 30, 30))
        .bold()
        .underline();
    let styled = style.apply("hello你好🦀");
    assert_ne!(styled, "hello你好🦀");
    assert_eq!(get_line_width_accurate(&styled), 11);
    assert_eq!(get_line_width_accurate("hello你好🦀"), 11);
}

#[test]
fn test_width_zero_width_code_point() {
    assert_eq!(get_line_width_accurate("a\u{0301}"), 1);
}
