use meshconf::term::WinSize;
use meshconf::tui::{
    banner_fits, banner_lines, box_fits, cleanup, clear, copyable_box_fits,
    draw_centered_box, draw_centered_box_with_copyable, draw_error_banner, draw_log_pane,
    log_pane_fits,
    draw_status, init, split_words, wrap_line, LogBuffer,
};

fn text(bytes: &[u8]) -> String {
    String::from_utf8(bytes.to_vec()).unwrap()
}

fn lines(list: &[&str]) -> Vec<String> {
    list.iter().map(|s| s.to_string()).collect()
}

fn ws(cols: u16, rows: u16) -> WinSize {
    WinSize { cols, rows, x_pixel: 0, y_pixel: 0 }
}

#[test]
fn screens() {
    let mut out = Vec::new();
    init(&mut out);
    clear(&mut out);
    cleanup(&mut out);
    assert_eq!(
        text(&out),
        "\x1b[?1049h\x1b[2J\x1b[H\x1b[?25l\x1b[2J\x1b[H\x1b[?25h\x1b[?1049l"
    );
}

#[test]
fn status_line() {
    let mut out = Vec::new();
    draw_status(&mut out, "hi", ws(80, 24));
    assert_eq!(text(&out), "\x1b[24;1H\x1b[2K\x1b[2mhi\x1b[0m");
    let mut out = Vec::new();
    draw_status(&mut out, "", ws(80, 0));
    assert_eq!(text(&out), "\x1b[1;1H\x1b[2K\x1b[2m\x1b[0m");
}

#[test]
fn wrapping() {
    assert_eq!(wrap_line("abcdefgh", 3), lines(&["abc", "def", "gh"]));
    assert_eq!(wrap_line("abcdef", 3), lines(&["abc", "def"]));
    assert_eq!(wrap_line("", 3), lines(&[""]));
    assert_eq!(wrap_line("abc", 0), lines(&["abc"]));
    // Characters count, not bytes.
    assert_eq!(wrap_line("ééé", 3), lines(&["ééé"]));
    assert_eq!(wrap_line("aöü", 2), lines(&["aö", "ü"]));
}

#[test]
fn centered_box() {
    let mut out = Vec::new();
    let content = lines(&["one", "two"]);
    assert!(box_fits("vc", &content, ws(80, 24)));
    draw_centered_box(&mut out, "vc", &content, ws(80, 24));
    let rule = "─".repeat(22);
    let expected = format!(
        "\x1b[10;29H╭{rule}╮\x1b[11;29H│{}vc{}│\x1b[12;29H├{rule}┤\x1b[13;29H│ {:<20} │\x1b[14;29H│ {:<20} │\x1b[15;29H╰{rule}╯",
        " ".repeat(10),
        " ".repeat(10),
        "one",
        "two",
    );
    assert_eq!(text(&out), expected);
}

#[test]
fn long_lines_are_wrapped_in_a_box() {
    let mut out = Vec::new();
    let content = lines(&["0123456789abcdefghijKLM"]);
    assert!(box_fits("t", &content, ws(28, 10)));
    draw_centered_box(&mut out, "t", &content, ws(28, 10));
    let shown = text(&out);
    assert!(shown.contains("│ 0123456789abcdefghij │"));
    assert!(shown.contains(&format!("│ {:<20} │", "KLM")));
    // Too narrow for the title.
    assert!(!box_fits("a title", &content, ws(9, 10)));
    // Characters count, not bytes.
    let content = lines(&["éééééééééééééééééééé"]);
    assert!(box_fits("é", &content, ws(28, 10)));
    let mut out = Vec::new();
    draw_centered_box(&mut out, "é", &content, ws(28, 10));
    let shown = text(&out);
    assert!(shown.contains(&format!("│{}é{}│", " ".repeat(10), " ".repeat(11))));
    assert!(shown.contains(&format!("│ {} │", "é".repeat(20))));
}

#[test]
fn boxes_are_as_wide_as_their_longest_line() {
    let content = lines(&["Audio only — video will not be displayed."]);
    assert!(box_fits("vc", &content, ws(120, 24)));
    let mut out = Vec::new();
    draw_centered_box(&mut out, "vc", &content, ws(120, 24));
    // 41 characters and four more for the frame: 75 columns are left.
    assert!(text(&out).starts_with(&format!("\x1b[10;38H╭{}╮", "─".repeat(43))));
}

#[test]
fn box_with_copyable_text() {
    let mut out = Vec::new();
    let content = lines(&["share"]);
    assert!(copyable_box_fits("vc", &content, ws(40, 20)));
    draw_centered_box_with_copyable(&mut out, "vc", &content, "TICKET", ws(40, 20));
    let shown = text(&out);
    // 5 rows of box, a blank row and the ticket: 20 - 7 over 2.
    assert!(shown.starts_with("\x1b[7;9H╭"));
    assert!(shown.ends_with("╯\x1b[13;1HTICKET"));
    assert!(!copyable_box_fits("a long title", &content, ws(10, 20)));
}

#[test]
fn words_of_a_message() {
    assert_eq!(split_words("  no \t camera\n"), lines(&["no", "camera"]));
    assert!(split_words(" \u{2003} ").is_empty());
}

#[test]
fn banner() {
    let size = ws(24, 10);
    // 20 columns, of which the sign takes four in the first line.
    assert_eq!(
        banner_lines("Camera error: device not found", size),
        lines(&["Camera error:", "device not found"])
    );
    assert!(banner_fits("Camera error: device not found", size));
    let mut out = Vec::new();
    draw_error_banner(&mut out, "Camera error: device not found", size);
    assert_eq!(
        text(&out),
        "\x1b[2;4H\x1b[1;31m⚠ Camera error:\x1b[0m\x1b[3;3H\x1b[1;31m    device not found\x1b[0m"
    );
}

#[test]
fn banner_breaks_long_words() {
    let size = ws(14, 10);
    assert_eq!(
        banner_lines("abcdefghijklmnopqrstuvwxyz", size),
        lines(&["abcdef", "ghijklmnop", "qrstuvwxyz"])
    );
    // Also behind another word.
    assert_eq!(
        banner_lines("a bcdefghijklmnopqrstuvwxyz", ws(20, 10)),
        lines(&["a", "bcdefghijklmnopq", "rstuvwxyz"])
    );
    assert_eq!(
        banner_lines("ab ééééééééééé z", size),
        lines(&["ab", "éééééééééé", "é", "z"])
    );
    assert_eq!(banner_lines("", size), lines(&[""]));
    assert!(!banner_fits("word", ws(4, 10)));
    assert!(banner_fits("", ws(4, 10)));
}

#[test]
fn banners_stay_within_the_terminal() {
    let message = "Kamera: größter Gerätefehlerbeschreibungstext /dev/videos/0123456789 é";
    let letters: String = message.chars().filter(|c| !c.is_whitespace()).collect();
    for cols in 5..60 {
        let shown = banner_lines(message, ws(cols, 50));
        assert!(shown.iter().all(|l| 4 + l.chars().count() <= cols as usize));
        let drawn: String = shown.concat().chars().filter(|c| !c.is_whitespace()).collect();
        assert_eq!(drawn, letters);
    }
}

#[test]
fn log_lines() {
    let mut log = LogBuffer::new(3);
    for line in ["a", "b", "c", "d"] {
        log.push(line.to_string());
    }
    assert_eq!(log.len(), 3);
    assert_eq!(log.lines(), lines(&["b", "c", "d"]));
    let mut out = Vec::new();
    draw_log_pane(&mut out, &log, 2, ws(80, 24));
    assert_eq!(
        text(&out),
        "\x1b[22;1H\x1b[2K\x1b[2mc\x1b[0m\x1b[23;1H\x1b[2K\x1b[2md\x1b[0m"
    );
}

#[test]
fn log_panes_higher_than_the_terminal() {
    let mut log = LogBuffer::new(3);
    log.push("a".to_string());
    log.push("b".to_string());
    for max_lines in [24, 0xFFFF, 0x10_0000, usize::MAX - 1] {
        assert!(log_pane_fits(&log, max_lines, ws(80, 24)));
        let mut out = Vec::new();
        draw_log_pane(&mut out, &log, max_lines, ws(80, 24));
        assert_eq!(
            text(&out),
            "\x1b[1;1H\x1b[2K\x1b[2ma\x1b[0m\x1b[2;1H\x1b[2K\x1b[2mb\x1b[0m"
        );
    }
    assert!(!log_pane_fits(&log, usize::MAX, ws(80, 24)));
    let mut long = LogBuffer::new(0x1_0000);
    for _ in 0..0x1_0000 {
        long.push(String::new());
    }
    assert!(!log_pane_fits(&long, 0x1_0000, ws(80, 24)));
    assert!(log_pane_fits(&long, 0xFFFF, ws(80, 24)));
}

#[test]
fn log_lines_are_cut_to_the_width() {
    let mut log = LogBuffer::new(3);
    log.push("äbcdef".to_string());
    let mut out = Vec::new();
    draw_log_pane(&mut out, &log, 5, ws(3, 24));
    assert_eq!(text(&out), "\x1b[19;1H\x1b[2K\x1b[2mäbc\x1b[0m");
}
