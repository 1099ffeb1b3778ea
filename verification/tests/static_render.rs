use vornix_banner::renderer::render_static_text;
use vornix_banner::Style;

#[test]
fn test_static_render_two_lines() {
    let content = vec![String::from("A"), String::from("BB")];
    let out = render_static_text(&content, &Style::new(), false, 1, 80);
    assert_eq!(out, "\r\nA\r\nBB\r\n");
}

#[test]
fn test_static_render_centered() {
    let content = vec![String::from("abcd")];
    let out = render_static_text(&content, &Style::new(), true, 0, 10);
    assert_eq!(out, "   abcd\r\n");
}

#[test]
fn test_static_render_no_padding_no_lines() {
    let content: Vec<String> = vec![];
    let out = render_static_text(&content, &Style::new(), true, 0, 80);
    assert_eq!(out, "");
}

#[test]
fn test_static_render_styled_keeps_line_text() {
    let content = vec![String::from("hi")];
    let style = Style::new().fg(vornix_banner::rgb(200, 0, 0)).bold();
    let out = render_static_text(&content, &style, false, 0, 80);
    assert!(out.contains("hi"));
    assert!(out.ends_with("\r\n"));
    assert_ne!(out, "hi\r\n");
}
