use vornix_banner::BannerError;

#[test]
fn test_error_messages() {
    assert_eq!(
        BannerError::Io(String::from("broken pipe")).message(),
        "input/output or terminal error: broken pipe"
    );
    assert_eq!(
        BannerError::FontLoad(String::from("bad.flf")).message(),
        "could not load or parse the FIGlet font: bad.flf"
    );
    assert_eq!(
        BannerError::FigletGeneration(String::from("x")).message(),
        "could not generate the FIGlet art: x"
    );
    assert_eq!(
        BannerError::InvalidAnimation(String::from("y")).message(),
        "invalid animation configuration: y"
    );
    assert_eq!(
        BannerError::TerminalSize(String::from("no tty")).message(),
        "could not determine the terminal size: no tty"
    );
    assert_eq!(
        BannerError::Internal(String::from("z")).message(),
        "internal library error: z"
    );
}
