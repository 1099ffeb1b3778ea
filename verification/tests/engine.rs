use vornix_banner::renderer::{display_animated, display_static_content};
use vornix_banner::terminal::Terminal;
use vornix_banner::{Animation, Style};

#[test]
fn test_animation_with_no_frames_is_a_no_op() {
    let mut term = Terminal::new();
    let animation = Animation::new(vec![], 10);
    let r = display_animated(&mut term, &animation, &Style::new(), true, 1);
    assert!(r.is_ok());
}

#[test]
fn test_static_display_of_no_content() {
    let mut term = Terminal::new();
    let content: Vec<String> = vec![];
    let r = display_static_content(&mut term, &content, &Style::new(), true, 0);
    assert!(r.is_ok());
}
