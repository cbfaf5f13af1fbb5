use espresso::ui::{display_width, format_uptime, join, render_box, truncate, yesno, Cell};

#[test]
fn width_counts_cjk_as_two() {
    assert_eq!(display_width("abc"), 3);
    assert_eq!(display_width("你好"), 4);
    assert_eq!(display_width("a你b"), 4);
}

#[test]
fn truncate_respects_column_budget() {
    assert_eq!(truncate("abcdef", 10), "abcdef");
    assert_eq!(truncate("abcdef", 4), "abc…");
    // CJK: budget 4 -> one wide char (2) + ellipsis (1) fits, second would overflow.
    assert_eq!(truncate("你好世界", 4), "你…");
    assert_eq!(truncate("abc", 0), "");
}

#[test]
fn uptime_formats_compactly() {
    assert_eq!(format_uptime(45), "45s");
    assert_eq!(format_uptime(192), "3m12s");
    assert_eq!(format_uptime(7500), "2h5m");
    assert_eq!(format_uptime(90000), "1d1h");
}

#[test]
fn box_borders_align_for_ascii() {
    let out = render_box("T", &[Cell::plain("ab")], 5);
    assert_eq!(
        out,
        "╭─ T ───╮\n│ ab    │\n╰───────╯\n"
    );
}

#[test]
fn box_borders_align_for_cjk() {
    // Every rendered line must have identical visible width.
    let out = render_box("状态", &[Cell::plain("你好"), Cell::plain("ab")], 6);
    let widths: Vec<usize> = out.lines().map(display_width).collect();
    assert!(widths.windows(2).all(|w| w[0] == w[1]), "widths={widths:?}");
}

#[test]
fn yesno_plain_when_no_color() {
    assert_eq!(yesno(true, false), Cell::plain("yes"));
    assert_eq!(yesno(false, false), Cell::plain("no"));
}

// ---- more ----

#[test]
fn every_box_line_is_inner_plus_four_wide() {
    let out = render_box("Infos", &[Cell::plain("Version   cli 1"), Cell::plain("x")], 16);
    for line in out.lines() {
        assert_eq!(display_width(line), 20);
    }
}

#[test]
fn colored_yesno_keeps_the_plain_word() {
    let c = yesno(true, true);
    assert_eq!(c.plain, "yes");
    assert_eq!(c.width(), 3);
    assert!(c.display.contains("yes"));
    let n = yesno(false, true);
    assert_eq!(n.plain, "no");
    assert!(n.display.contains("no"));
}

#[test]
fn join_concatenates_in_order() {
    let c = join(&[Cell::plain("ab"), Cell::plain(" "), Cell::plain("你")]);
    assert_eq!(c.plain, "ab 你");
    assert_eq!(c.display, "ab 你");
    assert_eq!(c.width(), 5);
}

#[test]
fn truncated_text_fits_its_budget() {
    for budget in 0..8 {
        let t = truncate("你好abc世界", budget);
        assert!(display_width(&t) <= budget);
    }
}

#[test]
fn uptime_boundaries() {
    assert_eq!(format_uptime(0), "0s");
    assert_eq!(format_uptime(59), "59s");
    assert_eq!(format_uptime(60), "1m0s");
    assert_eq!(format_uptime(3600), "1h0m");
    assert_eq!(format_uptime(86400), "1d0h");
}

#[test]
fn colored_tokens_are_bold_green_and_bold_red() {
    let y = yesno(true, true).display;
    assert!(y == "\u{1b}[38;5;10m\u{1b}[1myes\u{1b}[0m" || y == "\u{1b}[m\u{1b}[1myes\u{1b}[0m");
    let n = yesno(false, true).display;
    assert!(n == "\u{1b}[38;5;9m\u{1b}[1mno\u{1b}[0m" || n == "\u{1b}[m\u{1b}[1mno\u{1b}[0m");
}
