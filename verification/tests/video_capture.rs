use meshconf::video_capture::{
    choose_format, fill_plane, needs_resize, test_pattern_cbcr, test_pattern_y, CameraFormat,
};
use meshconf::vimage::{
    chroma_plane, luma_plane, packed_plane, plane_layout, split_i420, video_range, Plane,
    PlaneLayout,
};

fn format(nv12: bool, width: u32, height: u32, fps_diffs: &[u64]) -> CameraFormat {
    CameraFormat { nv12, width, height, fps_diffs: fps_diffs.to_vec() }
}

#[test]
fn smallest_sufficient_format() {
    let formats = vec![
        format(false, 640, 480, &[0]),
        format(true, 320, 240, &[0]),
        format(true, 1920, 1080, &[0]),
        format(true, 1280, 720, &[15_000]),
        format(true, 1280, 720, &[45_000, 5_000]),
        format(true, 1280, 720, &[5_000]),
    ];
    assert_eq!(choose_format(&formats), Some(4));
    // Without frame rates a format comes last among its equals.
    let formats = vec![format(true, 640, 480, &[]), format(true, 640, 480, &[99_000])];
    assert_eq!(choose_format(&formats), Some(1));
}

#[test]
fn any_format_is_better_than_none() {
    let formats = vec![
        format(false, 1920, 1080, &[0]),
        format(true, 320, 240, &[0]),
        format(true, 352, 288, &[0]),
    ];
    assert_eq!(choose_format(&formats), Some(1));
    assert_eq!(choose_format(&vec![format(false, 640, 480, &[0])]), None);
    assert_eq!(choose_format(&vec![]), None);
}

#[test]
fn other_sizes_are_scaled() {
    assert!(!needs_resize(640, 480));
    assert!(needs_resize(640, 360));
    assert!(needs_resize(1280, 480));
}

#[test]
fn rows_with_padding() {
    let mut plane = vec![9; 12];
    fill_plane(&mut plane, 5, &[1, 2, 3, 4, 5, 6], 3, 2);
    assert_eq!(plane, vec![1, 2, 3, 9, 9, 4, 5, 6, 9, 9, 9, 9]);
    // The padding of the last row may be missing.
    let mut plane = vec![0; 3];
    fill_plane(&mut plane, 2, &[1, 2], 1, 2);
    assert_eq!(plane, vec![1, 0, 2]);
}

#[test]
fn test_pattern_planes() {
    let mut y = vec![1];
    test_pattern_y(0, &mut y);
    assert_eq!(y.len(), 640 * 480);
    // Eight bars of 80 columns, from white to black, the same in every row.
    let bars: Vec<u8> = (0..8).map(|i| y[80 * i]).collect();
    assert_eq!(bars, vec![181, 162, 132, 113, 84, 66, 35, 16]);
    assert_eq!((y[79], y[639]), (181, 16));
    assert_eq!(&y[..640], &y[640 * 479..]);

    let mut cbcr = Vec::new();
    test_pattern_cbcr(0, &mut cbcr);
    assert_eq!(cbcr.len(), 640 * 240);
    let pairs: Vec<(u8, u8)> = (0..8).map(|i| (cbcr[80 * i], cbcr[80 * i + 1])).collect();
    assert_eq!(
        pairs,
        vec![
            (128, 128),
            (44, 142),
            (157, 44),
            (73, 58),
            (184, 199),
            (100, 212),
            (212, 115),
            (128, 128)
        ]
    );
}

#[test]
fn the_test_pattern_moves() {
    let mut first = Vec::new();
    test_pattern_y(0, &mut first);
    let mut next = Vec::new();
    test_pattern_y(1, &mut next);
    assert_eq!(&next[..638], &first[2..640]);
    // After 320 frames it is back.
    test_pattern_y(320, &mut next);
    assert!(next == first);
}

#[test]
fn planes() {
    assert_eq!(luma_plane(640, 480, 704), Plane { width: 640, height: 480, row_bytes: 704 });
    assert_eq!(chroma_plane(641, 481, 352), Plane { width: 320, height: 240, row_bytes: 352 });
    assert_eq!(packed_plane(640, 480), Plane { width: 640, height: 480, row_bytes: 2560 });
    assert_eq!(plane_layout(3), Some(PlaneLayout::I420));
    assert_eq!(plane_layout(4), Some(PlaneLayout::I420));
    assert_eq!(plane_layout(2), Some(PlaneLayout::Nv12));
    assert_eq!(plane_layout(1), None);
    let range = video_range();
    assert_eq!((range.yp_min, range.yp_max, range.cb_cr_min, range.cb_cr_max), (16, 235, 16, 240));
    assert_eq!((range.yp_bias, range.cb_cr_bias), (16, 128));
    assert_eq!((range.yp_range_max, range.cb_cr_range_max), (235, 240));
}

#[test]
fn i420_planes_stand_one_behind_the_other() {
    let yuv: Vec<u8> = (0..12).collect();
    let (y, u, v) = split_i420(4, 2, &yuv);
    assert_eq!(y, &yuv[..8]);
    assert_eq!(u, &[8, 9]);
    assert_eq!(v, &[10, 11]);
}
