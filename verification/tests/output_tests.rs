use cosmic_desk_log::output::{
    active_output_width, current_mode_width, listing_is_defined, parse_mode_size, strip_ansi,
};

#[test]
fn strip_ansi_removes_colour_sequences() {
    assert_eq!(strip_ansi("\u{1b}[1;32mHDMI-A-1\u{1b}[0m"), "HDMI-A-1");
    assert_eq!(strip_ansi("plain text"), "plain text");
    assert_eq!(strip_ansi(""), "");
}

#[test]
fn strip_ansi_lone_escape_and_unterminated() {
    assert_eq!(strip_ansi("\u{1b}Xa"), "Xa");
    assert_eq!(strip_ansi("ab\u{1b}"), "ab");
    assert_eq!(strip_ansi("ab\u{1b}[12;3"), "ab");
    assert_eq!(strip_ansi("\u{1b}[\u{1b}[mZ"), "Z");
}

#[test]
fn strip_ansi_is_idempotent() {
    let once = strip_ansi("a\u{1b}[31mb\u{1b}c");
    assert_eq!(once, "abc");
    assert_eq!(strip_ansi(&once), once);
}

#[test]
fn parse_mode_size_reads_mode() {
    assert_eq!(parse_mode_size("  1920x1080 @ 60.000 Hz (current)"), Some((1920, 1080)));
    assert_eq!(parse_mode_size("DP-1 2560x1440@144"), Some((2560, 1440)));
    assert_eq!(parse_mode_size("+3840x2160"), Some((3840, 2160)));
}

#[test]
fn parse_mode_size_rejects() {
    assert_eq!(parse_mode_size("no mode here"), None);
    assert_eq!(parse_mode_size("abc x 1080"), None);
    assert_eq!(parse_mode_size("1920x"), None);
    assert_eq!(parse_mode_size("exact 1920x1080"), None);
    assert_eq!(parse_mode_size("99999999999x1080"), None);
}

#[test]
fn current_mode_width_first_current_line() {
    let listing = "\u{1b}[1mDP-1\u{1b}[0m\n  \u{1b}[32m2560x1440\u{1b}[0m @ 60 Hz\n  1920x1080 @ 60 Hz (current)\n  1280x720 (current)\n";
    assert!(listing_is_defined(listing));
    assert_eq!(current_mode_width(listing), Some(1920));
}

#[test]
fn current_mode_width_skips_unreadable_current() {
    let listing = "(current) nothing\r\n  3840x2160 (current)\r\n";
    assert_eq!(current_mode_width(listing), Some(3840));
    assert_eq!(current_mode_width("1920x1080\n"), None);
    assert_eq!(current_mode_width(""), None);
}

#[test]
fn listing_with_multibyte_before_width_is_refused() {
    let listing = "é1920x1080 (current)";
    assert!(!listing_is_defined(listing));
    assert_eq!(active_output_width(true, listing.as_bytes()), None);
}

#[test]
fn active_output_width_cases() {
    let out = b"HDMI-A-1\n  1920x1200 @ 59.95 Hz (current)\n";
    assert_eq!(active_output_width(true, out), Some(1920));
    assert_eq!(active_output_width(false, out), None);
    assert_eq!(active_output_width(true, b"nothing"), None);
}

#[test]
fn active_output_width_decodes_invalid_bytes() {
    let mut out: Vec<u8> = vec![0xff, b'\n'];
    out.extend_from_slice(b"  2560x1600 (current)\n");
    assert_eq!(active_output_width(true, &out), Some(2560));
}
