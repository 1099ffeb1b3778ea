use vornix_banner::renderer::calculate_padding;

#[test]
fn test_padding_centered() {
    assert_eq!(calculate_padding(80, 10, true), 35);
}

#[test]
fn test_padding_not_centered() {
    assert_eq!(calculate_padding(80, 10, false), 0);
}

#[test]
fn test_padding_content_as_wide_as_terminal() {
    assert_eq!(calculate_padding(80, 80, true), 0);
    assert_eq!(calculate_padding(80, 100, true), 0);
}

#[test]
fn test_padding_rounds_down() {
    assert_eq!(calculate_padding(80, 11, true), 34);
    assert_eq!(calculate_padding(5, 2, true), 1);
}
