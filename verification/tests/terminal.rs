use std::io::Read;

use meshconf::kitty::{
    centered_position, convert_to_rgb24, delete_image, display_image, display_image_at,
    display_image_sized, div_ceil, put_image_stream, response_complete, response_ok,
    transmit_image, TransferMode, TransmitScratch,
};
use meshconf::term::{move_to, read_key, KeyPress, WinSize};

fn text(bytes: &[u8]) -> String {
    String::from_utf8(bytes.to_vec()).unwrap()
}

const WS: WinSize = WinSize { cols: 100, rows: 50, x_pixel: 1000, y_pixel: 1000 };

#[test]
fn cursor_positions_count_from_one() {
    let mut out = b"x".to_vec();
    move_to(&mut out, 0, 41);
    assert_eq!(text(&out), "x\x1b[42;1H");
}

#[test]
fn key_presses() {
    assert_eq!(read_key(&[]), None);
    assert_eq!(read_key(&[3]), Some(KeyPress::CtrlC));
    assert_eq!(read_key(b"q"), Some(KeyPress::Char('q')));
    assert_eq!(read_key(b"\x1b[A"), Some(KeyPress::Escape));
    assert_eq!(read_key(&[0xE9, 1]), Some(KeyPress::Char('\u{e9}')));
}

#[test]
fn cell_sizes() {
    assert_eq!(WS.cell_size(), Some((10, 20)));
    assert_eq!(WinSize { x_pixel: 0, ..WS }.cell_size(), None);
    assert_eq!(WinSize { cols: 0, ..WS }.cell_size(), None);
    assert_eq!(WinSize { y_pixel: 49, ..WS }.cell_size(), None);
}

#[test]
fn responses() {
    assert!(response_complete(b"\x1b_Gi=31;OK\x1b\\"));
    assert!(!response_complete(b"\x1b_Gi=31;OK\x1b"));
    assert!(!response_complete(b"\\"));
    assert!(response_ok(b"\x1b_Gi=31;OK\x1b\\"));
    assert!(!response_ok(b"\x1b_Gi=31;ENOTSUP\x1b\\"));
    assert!(!response_ok(b"O"));
    assert!(!response_ok(b""));
}

#[test]
fn pixels_become_rgb24() {
    let mut out = vec![9];
    convert_to_rgb24(&[0x00FF8001, 0xAA010203, 7], 2, &mut out);
    assert_eq!(out, vec![0xFF, 0x80, 0x01, 1, 2, 3]);
}

#[test]
fn images_through_shared_memory() {
    let mut scratch = TransmitScratch::new();
    let pixels = [0x00112233u32, 0x00445566];
    transmit_image(7, 2, 1, &pixels, &mut scratch, TransferMode::Shm, 4321).unwrap();
    assert_eq!(text(&scratch.shm_name), "/vc_4321_1");
    assert_eq!(scratch.rgb_data, vec![0x11, 0x22, 0x33, 0x44, 0x55, 0x66]);
    assert_eq!(
        text(&scratch.cmd_buf),
        "\x1b_Gi=7,s=2,v=1,a=t,f=24,t=shm,q=2;/vc_4321_1\x1b\\"
    );
    transmit_image(7, 2, 1, &pixels, &mut scratch, TransferMode::Shm, 4321).unwrap();
    assert_eq!(text(&scratch.shm_name), "/vc_4321_2");
}

#[test]
fn images_through_the_terminal() {
    let mut scratch = TransmitScratch::new();
    // Noise, so that the image takes more than one piece.
    let mut state = 12345u32;
    let mut pixels = Vec::new();
    for _ in 0..64 * 64 {
        state = state.wrapping_mul(1_664_525).wrapping_add(1_013_904_223);
        pixels.push(state >> 8);
    }
    transmit_image(3, 64, 64, &pixels, &mut scratch, TransferMode::Pty, 1).unwrap();
    assert_eq!(scratch.shm_counter, 0);
    let commands = text(&scratch.cmd_buf);
    assert!(commands.starts_with("\x1b_Gi=3,s=64,v=64,a=t,f=24,o=z,t=d,q=2,m=1;"));

    let mut b64 = String::new();
    let pieces: Vec<&str> = commands.split_terminator("\x1b\\").collect();
    assert!(pieces.len() > 1);
    for (i, piece) in pieces.iter().enumerate() {
        let (keys, data) = piece.split_once(';').unwrap();
        let more = if i + 1 < pieces.len() { '1' } else { '0' };
        assert!(keys.ends_with(more));
        if i > 0 {
            assert_eq!(keys.len(), "\x1b_Gm=1".len());
        }
        assert!(data.len() <= 4096);
        b64.push_str(data);
    }
    // Unpacked, it is the picture.
    let zlib = base64::Engine::decode(&base64::engine::general_purpose::STANDARD, b64).unwrap();
    let mut rgb = Vec::new();
    flate2::read::ZlibDecoder::new(&zlib[..]).read_to_end(&mut rgb).unwrap();
    let mut expected = Vec::new();
    convert_to_rgb24(&pixels, pixels.len(), &mut expected);
    assert_eq!(rgb, expected);
}

#[test]
fn image_streams() {
    let mut out = Vec::new();
    put_image_stream(&mut out, 1, 2, 3, b"Man");
    assert_eq!(text(&out), "\x1b_Gi=1,s=2,v=3,a=t,f=24,o=z,t=d,q=2,m=0;TWFu\x1b\\");
    let mut out = Vec::new();
    put_image_stream(&mut out, 1, 2, 3, &[0; 3072]);
    assert!(text(&out).starts_with("\x1b_Gi=1,s=2,v=3,a=t,f=24,o=z,t=d,q=2,m=0;AAAA"));
    let mut out = Vec::new();
    put_image_stream(&mut out, 1, 2, 3, &[0; 3073]);
    assert!(text(&out).ends_with("AAAA\x1b\\\x1b_Gm=0;AA==\x1b\\"));
}

#[test]
fn centering() {
    assert_eq!(div_ceil(7, 2), 4);
    assert_eq!(div_ceil(u32::MAX, 1), u32::MAX);
    // 641 pixels take 65 columns, 480 take 24 rows.
    assert_eq!(centered_position(Some(WS), 641, 480), (17, 13));
    assert_eq!(centered_position(Some(WS), 5000, 5000), (0, 0));
    assert_eq!(centered_position(None, 640, 480), (0, 0));
    assert_eq!(centered_position(Some(WinSize { x_pixel: 0, ..WS }), 640, 480), (0, 0));
}

#[test]
fn placing_and_deleting() {
    let mut out = Vec::new();
    display_image_sized(&mut out, 5, 641, 480, Some(WS));
    assert_eq!(
        text(&out),
        "\x1b_Ga=d,d=i,i=5,q=2\x1b\\\x1b[14;18H\x1b_Ga=p,i=5,q=2\x1b\\"
    );
    let mut whole = Vec::new();
    display_image(&mut whole, 5, Some(WS));
    assert_eq!(
        text(&whole),
        "\x1b_Ga=d,d=i,i=5,q=2\x1b\\\x1b[14;19H\x1b_Ga=p,i=5,q=2\x1b\\"
    );
    let mut out = Vec::new();
    display_image_at(&mut out, 2, 3, 4, Some(30), Some(10));
    assert_eq!(text(&out), "\x1b[5;4H\x1b_Ga=p,i=2,c=30,r=10,q=2\x1b\\");
    let mut out = Vec::new();
    display_image_at(&mut out, 2, 3, 4, Some(30), None);
    assert_eq!(text(&out), "\x1b[5;4H\x1b_Ga=p,i=2,q=2\x1b\\");
    let mut out = Vec::new();
    delete_image(&mut out, 18);
    assert_eq!(text(&out), "\x1b_Ga=d,d=I,i=18\x1b\\");
}
