use ip_tools::style::Style;

#[test]
fn plain_is_byte_identical() {
    let style = Style::plain();
    assert!(!style.colored());
    assert_eq!(style.pass("PASS"), "PASS");
    assert_eq!(style.fail("FAIL"), "FAIL");
    assert_eq!(style.warn("warn"), "warn");
    assert_eq!(style.info("info"), "info");
    assert_eq!(style.paint("31", "x"), "x");
}

#[test]
fn colored_wraps_in_the_requested_sgr_code() {
    let style = Style::colored_for_tests();
    assert!(style.colored());
    assert_eq!(style.pass("PASS"), "\x1b[32mPASS\x1b[0m");
    assert_eq!(style.fail("FAIL"), "\x1b[31mFAIL\x1b[0m");
    assert_eq!(style.warn("!"), "\x1b[33m!\x1b[0m");
    assert_eq!(style.info("i"), "\x1b[36mi\x1b[0m");
}

#[test]
fn auto_gate_truth_table_color_only_for_tty_without_escapes() {
    // Color requires all three inputs to allow it: no `--no-color` flag, a
    // terminal, and no `NO_COLOR` environment variable.
    let gate = Style::from_parts;
    assert!(gate(false, true, false).colored(), "TTY, no escapes -> colored");
    assert!(!gate(true, true, false).colored(), "--no-color disables on a TTY");
    assert!(!gate(false, false, false).colored(), "non-TTY stays plain");
    assert!(!gate(false, true, true).colored(), "NO_COLOR disables on a TTY");
    assert!(!gate(true, true, true).colored());
    assert!(!gate(true, false, true).colored());
    assert!(!gate(false, false, true).colored());
    assert!(!gate(true, false, false).colored());
}
