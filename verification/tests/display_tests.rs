use waka::draw::{
    box_bottom_width, box_row_width, box_top_width, crop, display_width, strip_ansi, width_from,
};
use waka::style::{bold, color, colour_off, cyan, dim, error, green, red, yellow, Color};
use waka::table::{pad, plural, separator_line, write_summary_footer, summary_row};

#[test]
fn colours_wrap_text() {
    assert_eq!(color("x", Color::Red, false), "\x1b[1;31mx\x1b[0m");
    assert_eq!(green("ok", false), "\x1b[1;32mok\x1b[0m");
    assert_eq!(yellow("w", false), "\x1b[1;33mw\x1b[0m");
    assert_eq!(cyan("c", false), "\x1b[1;36mc\x1b[0m");
    assert_eq!(red("r", false), "\x1b[1;31mr\x1b[0m");
    assert_eq!(bold("b", false), "\x1b[1mb\x1b[0m");
    assert_eq!(dim("d", false), "\x1b[2md\x1b[0m");
    assert_eq!(Color::Blue.code(), "1;34");
    assert_eq!(Color::Cyan.code(), "1;36");
}

#[test]
fn plain_output_has_no_colour() {
    for s in ["", "text", "a b c"] {
        assert_eq!(color(s, Color::Green, true), s);
        assert_eq!(bold(s, true), s);
        assert_eq!(dim(s, true), s);
    }
    assert_eq!(error("bad thing", true), "error: bad thing");
    assert_eq!(error("bad", false), "\x1b[1;31merror:\x1b[0m bad");
}

#[test]
fn strip_ansi_removes_sequences() {
    assert_eq!(strip_ansi("\x1b[1;31mred\x1b[0m"), "red");
    assert_eq!(strip_ansi("plain"), "plain");
    assert_eq!(strip_ansi("a\x1b[2mb\x1b[0mc"), "abc");
    assert_eq!(strip_ansi("\x1b"), "");
    assert_eq!(strip_ansi("x\x1b[1;3"), "x");
    let once = strip_ansi("\x1b[1mA\x1b[0m\x1bB");
    assert_eq!(strip_ansi(&once), once);
}

#[test]
fn colour_keeps_display_width() {
    for s in ["", "abc", "日本", "Downloading: x"] {
        assert_eq!(display_width(&green(s, false)), display_width(s));
        assert_eq!(display_width(&bold(s, false)), display_width(s));
        assert_eq!(display_width(&dim(s, false)), display_width(s));
    }
    assert_eq!(display_width("日本"), 4);
    assert_eq!(display_width("abc"), 3);
}

#[test]
fn terminal_width_falls_back_to_80() {
    assert_eq!(width_from(None), 80);
    assert_eq!(width_from(Some(132)), 132);
}

#[test]
fn box_edges() {
    assert_eq!(box_top_width("", 6), "┌────┐");
    assert_eq!(box_top_width("Hi", 10), "┌─ Hi ───┐");
    assert_eq!(box_bottom_width(5), "└───┘");
    assert_eq!(box_bottom_width(1), "└┘");
}

#[test]
fn box_rows_pad_or_cut() {
    assert_eq!(box_row_width("ab", 8), "│ ab   │");
    assert_eq!(box_row_width("abcdefgh", 8), "│ abc… │");
    assert_eq!(crop("abcdef", 3), "abc");
    assert_eq!(crop("日本語", 5), "日本");
}

#[test]
fn pad_fits_columns() {
    assert_eq!(pad("ab", 5, false), "ab   ");
    assert_eq!(pad("ab", 5, true), "   ab");
    assert_eq!(pad("abcdef", 4, false), "abc…");
    assert_eq!(pad("\x1b[1mabcdef\x1b[0m", 4, true), "abc…");
    assert_eq!(pad("\x1b[1mab\x1b[0m", 4, true), "  \x1b[1mab\x1b[0m");
}

#[test]
fn plural_adds_s() {
    assert_eq!(plural("package", 1), "package");
    assert_eq!(plural("package", 0), "packages");
    assert_eq!(plural("file", 2), "files");
}

#[test]
fn separator_spans_width() {
    assert_eq!(separator_line(6), " ──── ");
    assert_eq!(separator_line(1), "  ");
}

/// A summary row as it is laid out with floating point.
fn row_with_floats(cols: [&str; 5], w: usize) -> String {
    let avail = w.saturating_sub(6);
    let name_col = (avail as f64 * 0.26) as usize;
    let ver_col = (avail as f64 * 0.16) as usize;
    let net_col = (avail as f64 * 0.26) as usize;
    let size_col = avail.saturating_sub(name_col + ver_col + ver_col + net_col);
    format!(
        " {} {} {} {} {} ",
        pad(cols[0], name_col, false),
        pad(cols[1], ver_col, false),
        pad(cols[2], ver_col, false),
        pad(cols[3], net_col, true),
        pad(cols[4], size_col, true)
    )
}

#[test]
fn summary_row_columns() {
    let cols = ["firefox", "1.0-1", "1.1-1", "2.0 MiB", "60 MiB"];
    for w in [0usize, 6, 7, 40, 80, 100, 101, 132, 200, 1000, 65535] {
        assert_eq!(summary_row(cols[0], cols[1], cols[2], cols[3], cols[4], w), row_with_floats(cols, w));
    }
    assert_eq!(
        summary_row("pkg", "1", "2", "1 B", "2 B", 56),
        " pkg           1        2                  1 B      2 B "
    );
}

#[test]
fn footer_aligns_labels_and_values() {
    let items = vec![
        ("Total Download Size".to_string(), "1.0 MiB".to_string()),
        ("Net Upgrade Size".to_string(), "-12 KiB".to_string()),
    ];
    let lines = write_summary_footer(&items, true);
    assert_eq!(lines.len(), 2);
    assert_eq!(lines[0], " Total Download Size: 1.0 MiB ");
    assert_eq!(lines[1], " Net Upgrade Size:    -12 KiB ");
}

#[test]
fn colour_is_off_when_piped_or_asked() {
    assert!(colour_off(true, true));
    assert!(colour_off(false, false));
    assert!(!colour_off(false, true));
}
