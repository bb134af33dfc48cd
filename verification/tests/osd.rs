use voxtype_realtime::osd::{
    accepted_size, choose_format, is_recording, level_start, on_frame_ping,
    position_to_anchor_and_margins, stagger, texture_extent, tick, OsdPosition, SurfaceAction,
};

#[test]
fn positions_anchor_to_their_edges() {
    // (position, top, bottom, left, right)
    let all = [
        (OsdPosition::BottomCenter, 0, 7, 0, 0),
        (OsdPosition::TopCenter, 7, 0, 0, 0),
        (OsdPosition::BottomLeft, 0, 7, 7, 0),
        (OsdPosition::BottomRight, 0, 7, 0, 7),
        (OsdPosition::TopLeft, 7, 0, 7, 0),
        (OsdPosition::TopRight, 7, 0, 0, 7),
    ];
    for (pos, top, bottom, left, right) in all {
        let p = position_to_anchor_and_margins(pos, 7);
        assert_eq!(
            (p.margin_top, p.margin_bottom, p.margin_left, p.margin_right),
            (top, bottom, left, right)
        );
        assert_eq!(
            (p.anchor_top, p.anchor_bottom, p.anchor_left, p.anchor_right),
            (top > 0, bottom > 0, left > 0, right > 0)
        );
    }
}

#[test]
fn the_surface_lives_as_long_as_frames_come() {
    assert_eq!(on_frame_ping(false), SurfaceAction::Create);
    assert_eq!(on_frame_ping(true), SurfaceAction::Nothing);
    assert_eq!(tick(Some(499_999_999), true), SurfaceAction::Render);
    assert_eq!(tick(Some(500_000_000), true), SurfaceAction::TearDown);
    assert_eq!(tick(None, true), SurfaceAction::TearDown);
    assert_eq!(tick(None, false), SurfaceAction::Nothing);
    assert_eq!(tick(Some(0), false), SurfaceAction::Nothing);
}

#[test]
fn sizes_left_open_are_filled_in() {
    assert_eq!(accepted_size((0, 0), (200, 36)), (200, 36));
    assert_eq!(accepted_size((10, 0), (200, 36)), (10, 36));
    assert_eq!(accepted_size((0, 20), (200, 36)), (200, 20));
    assert_eq!(texture_extent(0, 5), (1, 5));
    assert_eq!(texture_extent(5, 0), (5, 1));
}

#[test]
fn the_preferred_format_is_taken_where_there_is_one() {
    assert_eq!(choose_format(&[]), None);
    assert_eq!(choose_format(&[false, false]), Some(0));
    assert_eq!(choose_format(&[false, true, true]), Some(1));
}

#[test]
fn the_state_file_chooses_the_face() {
    assert!(is_recording(None));
    assert!(is_recording(Some("recording\n")));
    assert!(is_recording(Some(" streaming")));
    assert!(!is_recording(Some("transcribing")));
    assert!(!is_recording(Some("")));
}

#[test]
fn the_level_comes_from_the_latest_frames() {
    assert_eq!(level_start(0), 0);
    assert_eq!(level_start(8), 0);
    assert_eq!(level_start(20), 12);
}

#[test]
fn the_wave_fans_out_from_the_center() {
    let delays: Vec<i128> = (0..10).map(|i| stagger(i, 10)).collect();
    assert_eq!(delays, vec![0, 1, 2, 3, 4, -5, -4, -3, -2, -1]);
    assert_eq!(stagger(2, 5), 2);
    assert_eq!(stagger(3, 5), -2);
}
