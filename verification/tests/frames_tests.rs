use iconview::frames::{has_smooth_alpha, rank, IcoFrame};

fn frame(width: u32, height: u32, smooth: bool, png: bool, marker: u8) -> IcoFrame {
    IcoFrame { width, height, has_smooth_alpha: smooth, is_png: png, data: vec![marker] }
}

#[test]
fn smooth_alpha_false_for_binary_alpha() {
    // alpha channel holds only 0 and 255
    let rgba = vec![
        10, 20, 30, 255, //
        40, 50, 60, 0, //
        70, 80, 90, 255,
    ];
    assert!(!has_smooth_alpha(&rgba));
}

#[test]
fn smooth_alpha_true_for_partial_alpha() {
    let rgba = vec![
        10, 20, 30, 255, //
        40, 50, 60, 128, //
        70, 80, 90, 0,
    ];
    assert!(has_smooth_alpha(&rgba));
}

#[test]
fn smooth_alpha_empty_buffer() {
    let rgba: Vec<u8> = Vec::new();
    assert!(!has_smooth_alpha(&rgba));
}

#[test]
fn smooth_alpha_ignores_color_channels() {
    // 128 appears in color channels but never in the alpha channel
    let rgba = vec![128, 128, 128, 255, 128, 128, 128, 0];
    assert!(!has_smooth_alpha(&rgba));
}

#[test]
fn smooth_alpha_ignores_trailing_partial_pixel() {
    // the trailing two bytes do not form a whole pixel, so no alpha byte
    // other than 0 or 255 is reachable
    let rgba = vec![1, 2, 3, 255, 4, 128];
    assert!(!has_smooth_alpha(&rgba));
}

#[test]
fn rank_prefers_smooth_alpha_over_everything() {
    let a = frame(256, 256, false, true, 1);
    let b = frame(16, 16, true, false, 2);
    let out = rank(vec![a, b]);
    assert_eq!(out[0].data, vec![2]);
    assert_eq!(out[1].data, vec![1]);
}

#[test]
fn rank_prefers_png_when_alpha_ties() {
    let a = frame(256, 256, true, false, 1);
    let b = frame(16, 16, true, true, 2);
    let out = rank(vec![a, b]);
    assert_eq!(out[0].data, vec![2]);
    assert_eq!(out[1].data, vec![1]);
}

#[test]
fn rank_prefers_larger_area_when_flags_tie() {
    let a = frame(16, 16, true, true, 1);
    let b = frame(32, 32, true, true, 2);
    let c = frame(48, 48, true, true, 3);
    let out = rank(vec![a, b, c]);
    assert_eq!(out[0].data, vec![3]);
    assert_eq!(out[1].data, vec![2]);
    assert_eq!(out[2].data, vec![1]);
}

#[test]
fn rank_is_stable_on_fully_tied_frames() {
    // identical quality keys: input order must be preserved
    let a = frame(16, 16, false, false, 1);
    let b = frame(16, 16, false, false, 2);
    let c = frame(16, 16, false, false, 3);
    let out = rank(vec![a, b, c]);
    assert_eq!(out[0].data, vec![1]);
    assert_eq!(out[1].data, vec![2]);
    assert_eq!(out[2].data, vec![3]);
}

#[test]
fn rank_is_stable_with_equal_area_different_shape() {
    // 8x32 and 16x16 share the area key, so decode order decides
    let a = frame(8, 32, true, true, 1);
    let b = frame(16, 16, true, true, 2);
    let out = rank(vec![a, b]);
    assert_eq!(out[0].data, vec![1]);
    assert_eq!(out[1].data, vec![2]);
}

#[test]
fn rank_orders_any_two_frames_consistently() {
    // for each pair, either one frame wins both ways of listing them, or
    // they are tied and keep the listed order
    let samples = [
        (16u32, 16u32, false, false),
        (16, 16, false, true),
        (16, 16, true, false),
        (32, 32, false, false),
        (8, 32, false, false),
    ];
    for (i, x) in samples.iter().enumerate() {
        for (j, y) in samples.iter().enumerate() {
            if i == j {
                continue;
            }
            let a = frame(x.0, x.1, x.2, x.3, 1);
            let b = frame(y.0, y.1, y.2, y.3, 2);
            let ab = rank(vec![a, b]);
            let a2 = frame(x.0, x.1, x.2, x.3, 1);
            let b2 = frame(y.0, y.1, y.2, y.3, 2);
            let ba = rank(vec![b2, a2]);
            let tied = x.2 == y.2 && x.3 == y.3 && x.0 * x.1 == y.0 * y.1;
            if tied {
                // stable: each keeps its listed order
                assert_eq!(ab[0].data, vec![1]);
                assert_eq!(ba[0].data, vec![2]);
            } else {
                // total: the same frame wins regardless of listing order
                assert_eq!(ab[0].data, ba[0].data);
            }
        }
    }
}

#[test]
fn rank_keeps_frame_contents() {
    let a = frame(16, 16, false, true, 7);
    let out = rank(vec![a]);
    assert_eq!(out.len(), 1);
    assert_eq!(out[0].width, 16);
    assert_eq!(out[0].height, 16);
    assert!(!out[0].has_smooth_alpha);
    assert!(out[0].is_png);
    assert_eq!(out[0].data, vec![7]);
}
