use meshconf::pool::SharedBuf;
use meshconf::room::PeerId;
use meshconf::term::WinSize;
use meshconf::video_compositor::{ConnectionKind, StatusInfo, TileFrame};
use meshconf::video_decode::RgbFrame;
use meshconf::video_display::{
    clear_all_images, compute_layout, conn_kind_tag, delete_all_images, draw_status_text,
    draw_ticket, note_label, put_label, status_row_count, tile_fits, tile_position, tile_size,
    wrapped_line_count, BackBuffers, GalleryLayout, TerminalDisplay, TileDropState,
};

const WS: WinSize = WinSize { cols: 200, rows: 60, x_pixel: 2000, y_pixel: 1200 };

fn text(bytes: &[u8]) -> String {
    String::from_utf8(bytes.to_vec()).unwrap()
}

fn tile(name: &str, kind: ConnectionKind, drops: u64) -> TileFrame {
    TileFrame {
        peer_id: PeerId::from_bytes([1; 32]),
        frame: RgbFrame {
            group_id: 1,
            capture_timestamp_us: 1,
            width: 640,
            height: 480,
            data: SharedBuf::from_vec(vec![0; 640 * 480]),
        },
        grid_col: 1,
        grid_row: 0,
        name: name.to_string(),
        conn_kind: kind,
        video_drops: drops,
    }
}

fn status(message: &str, copyable: Option<&str>) -> Option<StatusInfo> {
    Some(StatusInfo {
        message: message.to_string(),
        copyable: copyable.map(|t| t.to_string()),
    })
}

#[test]
fn all_images_are_deleted() {
    let mut out = Vec::new();
    delete_all_images(&mut out);
    let shown = text(&out);
    assert!(shown.starts_with("\x1b_Ga=d,d=I,i=1\x1b\\\x1b_Ga=d,d=I,i=2\x1b\\"));
    assert!(shown.ends_with("\x1b_Ga=d,d=I,i=20\x1b\\"));
    let mut cleared = Vec::new();
    clear_all_images(&mut cleared);
    assert_eq!(text(&cleared), format!("\x1b[2J{shown}"));
}

#[test]
fn images_alternate() {
    let mut buffers = BackBuffers::new();
    assert_eq!(buffers.next_image(0), 1);
    assert_eq!(buffers.next_image(0), 2);
    assert_eq!(buffers.next_image(8), 17);
    assert_eq!(buffers.next_image(0), 1);
    assert_eq!(buffers.next_image(8), 18);
}

#[test]
fn layouts() {
    // Cells of 10 by 20 pixels: a tile takes 64 by 24 of them.
    let l = compute_layout(WS, 640, 480, 2, 2, 1).unwrap();
    assert_eq!(
        l,
        GalleryLayout {
            tile_cols: 64,
            tile_rows: 24,
            label_rows: 1,
            origin_col: (200 - 129) / 2,
            origin_row: (60 - 51) / 2,
        }
    );
    assert_eq!(tile_position(&l, 1, 1), Some((35 + 65, 4 + 26)));
    // Nothing is known of the size in pixels.
    assert_eq!(compute_layout(WinSize { x_pixel: 0, ..WS }, 640, 480, 1, 1, 1), None);
    // A gallery larger than the terminal starts in the corner.
    let l = compute_layout(WS, 3000, 2000, 1, 1, 1).unwrap();
    assert_eq!((l.origin_col, l.origin_row), (0, 0));
    assert_eq!(tile_size(&[]), (640, 480));
}

#[test]
fn the_largest_frame_counts() {
    let mut small = tile("a", ConnectionKind::Local, 0);
    small.frame.width = 320;
    small.frame.height = 500;
    let tiles = [tile("b", ConnectionKind::Local, 0), small];
    assert_eq!(tile_size(&tiles), (640, 500));
}

#[test]
fn labels() {
    assert_eq!(conn_kind_tag(ConnectionKind::Relay), 2);
    let mut out = Vec::new();
    put_label(&mut out, 10, 5, 30, "ann", ConnectionKind::Direct);
    // 30 - 12 columns are left.
    assert_eq!(
        text(&out),
        format!("\x1b[6;20H\x1b[1mann\x1b[0m \x1b[32m(direct)\x1b[0m {}", " ".repeat(18))
    );
    let mut out = Vec::new();
    put_label(&mut out, 0, 0, 4, "", ConnectionKind::Unknown);
    assert_eq!(text(&out), "\x1b[1;1H\x1b[1m?\x1b[0m \x1b[2m(…)\x1b[0m ");
}

#[test]
fn labels_are_drawn_when_they_change() {
    let mut drawn = Vec::new();
    assert!(note_label(&mut drawn, 2, "ann", ConnectionKind::Direct));
    assert_eq!(drawn.len(), 3);
    assert!(!note_label(&mut drawn, 2, "ann", ConnectionKind::Direct));
    assert!(note_label(&mut drawn, 2, "ann", ConnectionKind::Relay));
    assert!(note_label(&mut drawn, 2, "bob", ConnectionKind::Relay));
    // What stands in for a label that was not drawn.
    assert!(!note_label(&mut drawn, 0, "", ConnectionKind::Unknown));
    assert!(note_label(&mut drawn, 0, "x", ConnectionKind::Unknown));
}

#[test]
fn drops_are_shown_for_a_second() {
    let mut state = TileDropState::new();
    assert!(!state.observe(0, 5));
    assert!(state.observe(1, 10));
    assert!(state.observe(1, 10 + 999_999_999));
    assert!(!state.observe(1, 10 + 1_000_000_000));
    assert!(state.observe(2, 2_000_000_000));
    // A count that went back is no drop.
    assert!(!state.observe(1, 4_000_000_000));
}

#[test]
fn rows_of_a_status() {
    assert_eq!(wrapped_line_count("abcdef", 3), 2);
    assert_eq!(wrapped_line_count("abcdefg", 3), 3);
    assert_eq!(wrapped_line_count("", 3), 1);
    assert_eq!(wrapped_line_count("abc", 0), 1);
    assert_eq!(status_row_count(&None, 80), 0);
    assert_eq!(status_row_count(&status("m", None), 80), 1);
    assert_eq!(status_row_count(&status("m", Some("abcd")), 2), 4);
}

#[test]
fn statuses_replace_each_other() {
    let mut out = Vec::new();
    draw_status_text(&mut out, &status("hello", Some("TICKET")), &None, 20, 50);
    // Message, blank line and ticket, upward from the anchor.
    assert_eq!(text(&out), "\x1b[49;8H\x1b[2K\x1b[2mhello\x1b[0m\x1b[51;1HTICKET");
    let mut out = Vec::new();
    draw_status_text(&mut out, &status("bye", None), &status("hello", Some("TICKET")), 20, 50);
    assert_eq!(
        text(&out),
        "\x1b[49;1H\x1b[2K\x1b[50;1H\x1b[2K\x1b[51;1H\x1b[2K\x1b[51;9H\x1b[2K\x1b[2mbye\x1b[0m"
    );
}

#[test]
fn a_display_draws_a_status_once() {
    let mut display = TerminalDisplay::new();
    let mut out = Vec::new();
    display.on_status(&mut out, &status("hi", None), Some(WS));
    assert_eq!(text(&out), "\x1b[58;100H\x1b[2K\x1b[2mhi\x1b[0m");
    let mut out = Vec::new();
    display.on_status(&mut out, &status("hi", None), Some(WS));
    assert!(out.is_empty());
    // After a resize it is drawn again.
    let mut out = Vec::new();
    display.on_resize(&mut out);
    assert!(text(&out).starts_with("\x1b[2J\x1b_Ga=d"));
    let mut out = Vec::new();
    display.on_status(&mut out, &status("hi", None), Some(WS));
    assert!(!out.is_empty());
}

#[test]
fn a_display_draws_an_error_once() {
    let mut display = TerminalDisplay::new();
    let mut out = Vec::new();
    display.on_error(&mut out, &None, Some(WS));
    assert!(out.is_empty() && !display.error_drawn);
    display.on_error(&mut out, &Some("no camera".to_string()), Some(WS));
    assert!(text(&out).contains("⚠ no camera"));
    let mut out = Vec::new();
    display.on_error(&mut out, &Some("no camera".to_string()), Some(WS));
    assert!(out.is_empty());
}

#[test]
fn another_number_of_tiles_clears_the_screen() {
    let mut display = TerminalDisplay::new();
    let mut out = Vec::new();
    display.on_gallery(2, &mut out);
    assert!(text(&out).starts_with("\x1b[2J"));
    let mut out = Vec::new();
    display.on_gallery(2, &mut out);
    assert!(out.is_empty());
}

#[test]
fn tiles_on_screen() {
    let mut display = TerminalDisplay::new();
    let layout = compute_layout(WS, 640, 480, 2, 1, 1).unwrap();
    let t = tile("ann", ConnectionKind::Relay, 3);
    assert!(tile_fits(&layout, &t));
    let id = display.begin_tile(1);
    assert_eq!(id, 3);
    let mut out = Vec::new();
    display.finish_tile(&mut out, 1, &t, &layout, id, 1_000);
    // Column 35 + 65, row (60 - 25) / 2.
    let image = "\x1b[18;101H\x1b_Ga=p,i=3,c=64,r=24,q=2\x1b\\";
    let label = format!(
        "\x1b[42;127H\x1b[1mann\x1b[0m \x1b[33m(relay)\x1b[0m {}",
        " ".repeat(64 - 11)
    );
    let dot = "\x1b[17;101H\x1b[31m●\x1b[0m";
    assert_eq!(text(&out), format!("{image}{label}{dot}"));
    // Next time only the image is new.
    let id = display.begin_tile(1);
    assert_eq!(id, 4);
    let mut out = Vec::new();
    display.finish_tile(&mut out, 1, &t, &layout, id, 2_000);
    assert_eq!(text(&out), image.replace("i=3", "i=4"));
    // A second later the dot goes.
    let id = display.begin_tile(1);
    let mut out = Vec::new();
    display.finish_tile(&mut out, 1, &t, &layout, id, 1_000_001_000);
    assert_eq!(text(&out), format!("{image}\x1b[17;101H "));
}

#[test]
fn labels_count_characters() {
    let mut accented = Vec::new();
    put_label(&mut accented, 0, 0, 40, "ééé", ConnectionKind::Direct);
    let mut plain = Vec::new();
    put_label(&mut plain, 0, 0, 40, "eee", ConnectionKind::Direct);
    assert_eq!(text(&accented), text(&plain).replace("eee", "ééé"));
}

#[test]
fn tickets() {
    let mut out = Vec::new();
    draw_ticket(&mut out, "TICKET", WS);
    assert_eq!(text(&out), "\x1b[56;94H\x1b[2K\x1b[2mticket: \x1b[0mTICKET");
}
