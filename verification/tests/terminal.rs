use codex_workbench::terminal_probe::parse_cursor_position;
use codex_workbench::terminal_probe::parse_keyboard_enhancement_support;
use codex_workbench::terminal_probe::parse_osc_color;

#[test]
fn parses_cursor_position_as_zero_based() {
    let position = parse_cursor_position(b"\x1B[20;10R").expect("a position");
    assert_eq!((position.x, position.y), (9, 19));
}

#[test]
fn parses_osc_colors_with_bel_and_st() {
    assert_eq!(
        parse_osc_color(b"\x1B]10;rgb:ffff/8000/0000\x07", /*slot*/ 10),
        Some((255, 127, 0))
    );
    assert_eq!(
        parse_osc_color(b"\x1B]11;rgba:00/80/ff/ff\x1B\\", /*slot*/ 11),
        Some((0, 128, 255))
    );
}

#[test]
fn parses_keyboard_enhancement_flags_and_pda_fallback() {
    assert_eq!(parse_keyboard_enhancement_support(b"\x1B[?7u"), Some(true));
    assert_eq!(
        parse_keyboard_enhancement_support(b"\x1B[?64;1;2c"),
        Some(false)
    );
    assert_eq!(parse_keyboard_enhancement_support(b""), None);
}

#[test]
fn incomplete_replies_are_not_read() {
    assert!(parse_cursor_position(b"\x1B[20;10").is_none());
    assert!(parse_cursor_position(b"20;10R").is_none());
    assert!(parse_osc_color(b"\x1B]10;rgb:ffff/8000/0000", 10).is_none());
    assert!(parse_osc_color(b"\x1B]10;rgb:ffff/8000/0000\x07", 11).is_none());
    assert!(parse_keyboard_enhancement_support(b"\x1B[?7").is_none());
}
