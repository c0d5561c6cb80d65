use meshconf::pool::SharedBuf;
use meshconf::room::PeerId;
use meshconf::video_compositor::{ConnectionKind, TileFrame};
use meshconf::video_decode::RgbFrame;
use meshconf::video_display::TileDropState;
use meshconf::video_display_window::{
    blend_pixel, blit_tile, draw_filled_circle, draw_gallery, draw_glyph, draw_text, draw_tile,
    draw_tile_label, fill_background, measure_text, scaled_window_size, tile_origin, window_size, Weight,
    WindowGrid, BG_COLOR, DROP_DOT_COLOR,
};

fn tile(width: u32, height: u32, pixel: u32) -> TileFrame {
    TileFrame {
        peer_id: PeerId::from_bytes([1; 32]),
        frame: RgbFrame {
            group_id: 1,
            capture_timestamp_us: 1,
            width,
            height,
            data: SharedBuf::from_vec(vec![pixel; (width * height) as usize]),
        },
        grid_col: 1,
        grid_row: 0,
        name: "ann".to_string(),
        conn_kind: ConnectionKind::Direct,
        video_drops: 0,
    }
}

#[test]
fn window_sizes() {
    assert_eq!(window_size(1, 1, 640, 480), Some((672, 544)));
    assert_eq!(window_size(2, 2, 640, 480), Some((32 + 1280 + 20, 32 + 1024 + 20)));
    assert_eq!(window_size(0, 0, 640, 480), Some((32, 32)));
    assert_eq!(window_size(100_000, 1, 640, 480), None);
    assert_eq!(scaled_window_size(672, 545, 2), (336, 272));
    assert_eq!(scaled_window_size(1, 1, 3), (1, 1));
    assert_eq!(tile_origin(0, 0, 640, 480), Some((16, 16)));
    assert_eq!(tile_origin(1, 2, 640, 480), Some((676, 16 + 2 * 532)));
}

#[test]
fn rows_are_copied() {
    let mut buf = vec![0; 6 * 4];
    let mut t = tile(2, 2, 0);
    t.frame.data = SharedBuf::from_vec(vec![1, 2, 3, 4]);
    blit_tile(&mut buf, 6, 3, 1, &t);
    let mut expected = vec![0; 24];
    expected[9] = 1;
    expected[10] = 2;
    expected[15] = 3;
    expected[16] = 4;
    assert_eq!(buf, expected);
}

#[test]
fn blending() {
    assert_eq!(blend_pixel(0x00102030, 0x00FFFFFF, 0), 0x00102030);
    assert_eq!(blend_pixel(0x00102030, 0x00A0B0C0, 255), 0x00A0B0C0);
    assert_eq!(blend_pixel(0x00000000, 0x00FFFFFF, 128), 0x00808080);
    assert_eq!(blend_pixel(0xFF181818, 0x00FF0000, 127), 0x008B0C0C);
}

#[test]
fn circles() {
    let mut buf = vec![0; 7 * 7];
    draw_filled_circle(&mut buf, 7, 7, 3, 3, 2, 9);
    let drawn: Vec<usize> = (0..49).filter(|p| buf[*p] == 9).collect();
    assert_eq!(drawn, vec![10, 16, 17, 18, 22, 23, 24, 25, 26, 30, 31, 32, 38]);
    // Cut off at the edge.
    let mut buf = vec![0; 4];
    draw_filled_circle(&mut buf, 2, 2, 0, 0, 1, 9);
    assert_eq!(buf, vec![9, 9, 9, 0]);
    // A picture without pixels stays as it is.
    let mut buf = vec![5; 3];
    draw_filled_circle(&mut buf, 0, 4, 0, 0, 1, 9);
    assert_eq!(buf, vec![5; 3]);
}

#[test]
fn glyphs_are_blended_in() {
    let mut rows = vec![vec![0u8; 11]; 24];
    rows[0][0] = 255;
    rows[1][10] = 128;
    let mut buf = vec![0; 12 * 3];
    draw_glyph(&mut buf, 12, 3, 1, 1, &rows, 0x00FFFFFF);
    let mut expected = vec![0; 36];
    expected[13] = 0x00FFFFFF;
    expected[35] = 0x00808080;
    assert_eq!(buf, expected);
}

#[test]
fn texts() {
    assert_eq!(measure_text(""), 0);
    assert_eq!(measure_text("añ…"), 33);
    let mut buf = vec![0; 100 * 40];
    assert_eq!(draw_text(&mut buf, 100, 40, 5, 8, "AB", 0x00FFFFFF, Weight::Regular), 27);
    let lit: Vec<usize> = (0..4000).filter(|p| buf[*p] != 0).collect();
    assert!(!lit.is_empty());
    // Only where the two characters stand.
    assert!(lit.iter().all(|p| (5..27).contains(&(p % 100)) && (8..32).contains(&(p / 100))));
    // Both characters, and bold looks different.
    assert!(lit.iter().any(|p| p % 100 < 16) && lit.iter().any(|p| p % 100 >= 16));
    let mut bold = vec![0; 100 * 40];
    draw_text(&mut bold, 100, 40, 5, 8, "AB", 0x00FFFFFF, Weight::Bold);
    assert!(bold != buf);
    // A character that the font does not have leaves a space.
    let mut none = vec![0; 100 * 40];
    assert_eq!(draw_text(&mut none, 100, 40, 0, 0, "\u{10FFFF}", 1, Weight::Regular), 11);
    assert!(none.iter().all(|p| *p == 0));
}

#[test]
fn tile_labels_are_centered() {
    let mut label = vec![0; 300 * 30];
    draw_tile_label(&mut label, 300, 30, 10, 2, 280, "ann", ConnectionKind::Direct);
    // Twelve characters: 132 pixels, 148 are left.
    let mut parts = vec![0; 300 * 30];
    let x = draw_text(&mut parts, 300, 30, 84, 2, "ann", 0x00FFFFFF, Weight::Bold);
    let x = draw_text(&mut parts, 300, 30, x, 2, " ", 0x00FFFFFF, Weight::Regular);
    draw_text(&mut parts, 300, 30, x, 2, "(direct)", 0x0044CC44, Weight::Regular);
    assert!(label == parts);
    // Without a name.
    let mut unnamed = vec![0; 300 * 30];
    draw_tile_label(&mut unnamed, 300, 30, 10, 2, 280, "", ConnectionKind::Local);
    let mut marked = vec![0; 300 * 30];
    draw_tile_label(&mut marked, 300, 30, 10, 2, 280, "?", ConnectionKind::Local);
    assert!(unnamed == marked);
}

#[test]
fn tiles_in_the_window() {
    let grid = WindowGrid { cols: 2, rows: 1, tile_w: 150, tile_h: 40 };
    let (w, h) = window_size(2, 1, 150, 40).unwrap();
    let mut buf = Vec::new();
    fill_background(&mut buf, (w * h) as usize);
    assert!(buf.iter().all(|p| *p == BG_COLOR));
    let t = tile(150, 40, 0x00112233);
    assert!(grid.accepts(&t));
    draw_tile(&mut buf, &grid, &t, true);
    let at = |x: u32, y: u32| buf[(y * w + x) as usize];
    let (x0, y0) = tile_origin(1, 0, 150, 40).unwrap();
    assert_eq!(at(x0, y0), 0x00112233);
    assert_eq!(at(x0 + 149, y0 + 39), 0x00112233);
    assert_eq!(at(x0 - 1, y0), BG_COLOR);
    assert_eq!(at(x0 + 9, y0 + 9), DROP_DOT_COLOR);
    assert_eq!(at(x0 + 9, y0 + 14), DROP_DOT_COLOR);
    assert_eq!(at(x0 + 9, y0 + 15), 0x00112233);
    // The label stands below.
    let label = (y0 + 44)..(y0 + 68);
    assert!(label.clone().any(|y| (x0..x0 + 150).any(|x| at(x, y) != BG_COLOR)));
    // Tiles that do not belong there are not taken.
    assert!(!grid.accepts(&tile(151, 40, 0)));
    assert!(!WindowGrid { cols: 1, ..grid }.accepts(&t));
    // Nor are those whose label would end beyond what can be addressed.
    assert!(!WindowGrid { tile_w: u32::MAX - 20, ..grid }.accepts(&t));
}

#[test]
fn galleries_in_the_window() {
    let grid = WindowGrid { cols: 2, rows: 1, tile_w: 150, tile_h: 40 };
    let (w, h) = window_size(2, 1, 150, 40).unwrap();
    let mut left = tile(150, 40, 0x00112233);
    left.grid_col = 0;
    let mut right = tile(140, 30, 0x00445566);
    right.video_drops = 2;
    let tiles = vec![left, right];
    assert!(tiles.iter().all(|t| grid.accepts(t)));
    let mut buf = vec![7; 3];
    let mut states: Vec<TileDropState> = Vec::new();
    draw_gallery(&mut buf, &grid, &tiles, &mut states, 5);
    assert_eq!(buf.len(), (w * h) as usize);
    assert_eq!(states.len(), 2);
    assert_eq!((states[0].last_drop_count, states[0].last_drop_ns), (0, None));
    assert_eq!((states[1].last_drop_count, states[1].last_drop_ns), (2, Some(5)));

    // Each tile is as if it were alone, and there is nothing else.
    for (i, t) in tiles.iter().enumerate() {
        let mut alone = Vec::new();
        fill_background(&mut alone, (w * h) as usize);
        draw_tile(&mut alone, &grid, t, i == 1);
        let (x0, y0) = tile_origin(i as u32, 0, 150, 40).unwrap();
        for y in y0..y0 + 72 {
            for x in x0..x0 + 150 {
                let p = (y * w + x) as usize;
                assert_eq!(buf[p], alone[p]);
            }
        }
    }
    for p in 0..w * h {
        let (x, y) = (p % w, p / w);
        let inside = (16..88).contains(&y) && ((16..166).contains(&x) || (186..336).contains(&x));
        assert!(inside || buf[p as usize] == BG_COLOR);
    }

    // A second later the dot is gone.
    draw_gallery(&mut buf, &grid, &tiles, &mut states, 1_000_000_005);
    assert!(!buf.contains(&DROP_DOT_COLOR));
}
