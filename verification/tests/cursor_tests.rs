use capture::classifier::CursorClassifier;
use capture::cursor::{CursorKind, Hotspot};
use capture::state::{
    map_cursor_metadata, CropRect, CursorMetadata, CursorSampleState, CursorState, VideoTransform,
    HIDDEN_CURSOR_SHAPE_ID,
};

fn new_state(scope: &str) -> CursorState {
    CursorState::new(scope, CursorClassifier::system(Vec::new()))
}

// Distinct non-zero identities derived from two different cursor bitmaps.
const SHAPE_A: u64 = 0x5a17_0c3e_9b21_4d80;
const SHAPE_B: u64 = 0x0b3f_7e22_61c4_a915;

#[test]
fn cursor_spa_id_changes_without_a_bitmap_and_zero_preserves_identity() {
    let mut state = new_state("stream");
    let first = CursorMetadata {
        id: 17,
        shape_id: None,
        cursor_kind: None,
        x: 4,
        y: 5,
        hotspot: None,
    };
    assert!(matches!(
        state.resolve(Some(first), 10, 10),
        CursorSampleState::Known {
            ref native_cursor_id,
            visible: true,
            ..
        } if native_cursor_id == "pipewire:stream:17"
    ));

    // SPA IDs are the identity even when no bitmap is present in the meta.
    let changed = CursorMetadata { id: 23, ..first };
    assert!(matches!(
        state.resolve(Some(changed), 10, 10),
        CursorSampleState::Known {
            ref native_cursor_id,
            visible: true,
            ..
        } if native_cursor_id == "pipewire:stream:23"
    ));

    let preserved = state.resolve(
        Some(CursorMetadata {
            id: 0,
            shape_id: None,
            cursor_kind: None,
            x: 6,
            y: 7,
            hotspot: None,
        }),
        10,
        10,
    );
    assert!(matches!(
        preserved,
        CursorSampleState::Known {
            ref native_cursor_id,
            pixel_x: 6,
            pixel_y: 7,
            visible: true,
            ..
        } if native_cursor_id == "pipewire:stream:23"
    ));

    let hidden = state.resolve(
        Some(CursorMetadata {
            id: 0,
            shape_id: None,
            cursor_kind: None,
            x: -1,
            y: -1,
            hotspot: None,
        }),
        10,
        10,
    );
    assert!(matches!(
        hidden,
        CursorSampleState::Known {
            ref native_cursor_id,
            visible: false,
            ..
        } if native_cursor_id == "pipewire:stream:23"
    ));
}

#[test]
fn cursor_id_zero_without_a_previous_identity_is_unknown() {
    let mut state = new_state("stream");
    assert_eq!(
        state.resolve(
            Some(CursorMetadata {
                id: 0,
                shape_id: None,
                cursor_kind: None,
                x: 4,
                y: 5,
                hotspot: None,
            }),
            10,
            10,
        ),
        CursorSampleState::Unknown
    );
}

#[test]
fn cursor_position_only_update_preserves_raw_spa_identity() {
    let mut state = new_state("stream");
    let identified = state.resolve(
        Some(CursorMetadata {
            id: 17,
            shape_id: None,
            cursor_kind: None,
            x: 4,
            y: 5,
            hotspot: None,
        }),
        10,
        10,
    );
    assert!(matches!(
        identified,
        CursorSampleState::Known { ref native_cursor_id, .. }
            if native_cursor_id == "pipewire:stream:17"
    ));

    let moved = state.resolve(
        Some(CursorMetadata {
            id: 0,
            shape_id: None,
            cursor_kind: None,
            x: 7,
            y: 8,
            hotspot: None,
        }),
        10,
        10,
    );
    assert!(matches!(
        moved,
        CursorSampleState::Known {
            ref native_cursor_id,
            pixel_x: 7,
            pixel_y: 8,
            visible: true,
            ..
        } if native_cursor_id == "pipewire:stream:17"
    ));
}

#[test]
fn mutter_raw_id_one_uses_shape_hash_and_position_only_preserves_it() {
    let shape_a = SHAPE_A;
    let shape_b = SHAPE_B;
    let mut state = new_state("stream");

    let first = state.resolve(
        Some(CursorMetadata {
            id: 1,
            shape_id: Some(shape_a),
            cursor_kind: Some(CursorKind::Default),
            x: 4,
            y: 5,
            hotspot: None,
        }),
        10,
        10,
    );
    assert!(matches!(
        first,
        CursorSampleState::Known {
            ref native_cursor_id,
            cursor_kind: CursorKind::Default,
            ..
        } if native_cursor_id == &format!("pipewire:stream:{shape_a}")
    ));

    let moved = state.resolve(
        Some(CursorMetadata {
            id: 1,
            shape_id: None,
            cursor_kind: None,
            x: 7,
            y: 8,
            hotspot: None,
        }),
        10,
        10,
    );
    assert!(matches!(
        moved,
        CursorSampleState::Known {
            ref native_cursor_id,
            cursor_kind: CursorKind::Default,
            pixel_x: 7,
            pixel_y: 8,
            visible: true,
            ..
        } if native_cursor_id == &format!("pipewire:stream:{shape_a}")
    ));

    let changed = state.resolve(
        Some(CursorMetadata {
            id: 1,
            shape_id: Some(shape_b),
            cursor_kind: Some(CursorKind::Textcursor),
            x: 7,
            y: 8,
            hotspot: None,
        }),
        10,
        10,
    );
    assert!(matches!(
        changed,
        CursorSampleState::Known {
            ref native_cursor_id,
            cursor_kind: CursorKind::Textcursor,
            ..
        } if native_cursor_id == &format!("pipewire:stream:{shape_b}")
    ));
    assert_ne!(shape_a, shape_b);
}

#[test]
fn raw_spa_id_change_then_bitmap_shape_change_updates_identity_in_order() {
    let shape_a = SHAPE_A;
    let shape_b = SHAPE_B;
    let mut state = new_state("stream");

    let first = state.resolve(
        Some(CursorMetadata {
            id: 17,
            shape_id: Some(shape_a),
            cursor_kind: Some(CursorKind::Default),
            x: 4,
            y: 5,
            hotspot: None,
        }),
        10,
        10,
    );
    assert!(matches!(
        first,
        CursorSampleState::Known { ref native_cursor_id, .. }
            if native_cursor_id == &format!("pipewire:stream:{shape_a}")
    ));

    let raw_changed = state.resolve(
        Some(CursorMetadata {
            id: 23,
            shape_id: None,
            cursor_kind: None,
            x: 6,
            y: 7,
            hotspot: None,
        }),
        10,
        10,
    );
    assert!(matches!(
        raw_changed,
        CursorSampleState::Known { ref native_cursor_id, .. }
            if native_cursor_id == "pipewire:stream:23"
    ));

    let bitmap_changed = state.resolve(
        Some(CursorMetadata {
            id: 23,
            shape_id: Some(shape_b),
            cursor_kind: Some(CursorKind::Handpointing),
            x: 6,
            y: 7,
            hotspot: None,
        }),
        10,
        10,
    );
    assert!(matches!(
        bitmap_changed,
        CursorSampleState::Known { ref native_cursor_id, .. }
            if native_cursor_id == &format!("pipewire:stream:{shape_b}")
    ));
}

#[test]
fn transparent_shape_hides_cursor_without_moving_it_to_the_window_origin() {
    let shape = SHAPE_A;
    let mut state = new_state("stream");
    let _ = state.resolve(
        Some(CursorMetadata {
            id: 1,
            shape_id: Some(shape),
            cursor_kind: Some(CursorKind::Default),
            x: 6,
            y: 7,
            hotspot: None,
        }),
        10,
        10,
    );

    let hidden = state.resolve(
        Some(CursorMetadata {
            id: 99,
            shape_id: Some(HIDDEN_CURSOR_SHAPE_ID),
            cursor_kind: None,
            x: 0,
            y: 0,
            hotspot: None,
        }),
        10,
        10,
    );

    match hidden {
        CursorSampleState::Known {
            ref native_cursor_id,
            pixel_x,
            pixel_y,
            frame_width,
            frame_height,
            visible,
            ..
        } => {
            assert_eq!((pixel_x, pixel_y), (6, 7));
            assert_eq!(f64::from(pixel_x) / f64::from(frame_width), 0.6);
            assert_eq!(f64::from(pixel_y) / f64::from(frame_height), 0.7);
            assert!(!visible);
            assert_eq!(native_cursor_id, &format!("pipewire:stream:{shape}"));
        }
        CursorSampleState::Unknown => panic!("hidden cursor must stay known"),
    }

    let hidden_move = state.resolve(
        Some(CursorMetadata {
            id: 0,
            shape_id: None,
            cursor_kind: None,
            x: 1,
            y: 1,
            hotspot: None,
        }),
        10,
        10,
    );
    assert!(matches!(
        hidden_move,
        CursorSampleState::Known { pixel_x: 6, pixel_y: 7, visible: false, .. }
    ));

    let restored = state.resolve(
        Some(CursorMetadata {
            id: 1,
            shape_id: Some(shape),
            cursor_kind: Some(CursorKind::Default),
            x: 8,
            y: 9,
            hotspot: None,
        }),
        10,
        10,
    );
    assert!(matches!(
        restored,
        CursorSampleState::Known {
            pixel_x: 8,
            pixel_y: 9,
            visible: true,
            ..
        }
    ));
}

#[test]
fn transparent_shape_before_any_visible_position_is_unknown() {
    let mut state = new_state("stream");
    assert_eq!(
        state.resolve(
            Some(CursorMetadata {
                id: 1,
                shape_id: Some(HIDDEN_CURSOR_SHAPE_ID),
                cursor_kind: None,
                x: 0,
                y: 0,
                hotspot: None,
            }),
            10,
            10,
        ),
        CursorSampleState::Unknown
    );
}

#[test]
fn cursor_coordinates_keep_signed_values_and_follow_crop_rotation() {
    let metadata = CursorMetadata {
        id: 3,
        shape_id: None,
        cursor_kind: None,
        x: 12,
        y: 24,
        hotspot: None,
    };
    let mapped = map_cursor_metadata(
        Some(metadata),
        100,
        100,
        Some(CropRect {
            x: 10,
            y: 20,
            width: 30,
            height: 40,
        }),
        VideoTransform::Rotated90,
    )
    .expect("mapped cursor");
    assert_eq!((mapped.x, mapped.y), (4, 27));

    let mut state = new_state("scope");
    let outside = state.resolve(
        Some(CursorMetadata {
            x: -2,
            y: 4,
            ..metadata
        }),
        30,
        40,
    );
    assert!(matches!(
        outside,
        CursorSampleState::Known {
            pixel_x: -2,
            visible: false,
            ..
        }
    ));
}

#[test]
fn missing_metadata_is_unknown_and_keeps_identity() {
    let mut state = new_state("s");
    let first = CursorMetadata {
        id: 5,
        shape_id: None,
        cursor_kind: None,
        x: 1,
        y: 1,
        hotspot: Some(Hotspot { x: 2, y: 3 }),
    };
    assert!(matches!(
        state.resolve(Some(first), 4, 4),
        CursorSampleState::Known { hotspot: Some(Hotspot { x: 2, y: 3 }), .. }
    ));
    assert_eq!(state.resolve(None, 4, 4), CursorSampleState::Unknown);
    let again = state.resolve(Some(CursorMetadata { id: 0, ..first }), 4, 4);
    assert!(matches!(
        again,
        CursorSampleState::Known { ref native_cursor_id, .. } if native_cursor_id == "pipewire:s:5"
    ));
}

#[test]
fn empty_frame_reports_unknown_cursor() {
    let mut state = new_state("s");
    let m = CursorMetadata {
        id: 9,
        shape_id: None,
        cursor_kind: None,
        x: 0,
        y: 0,
        hotspot: None,
    };
    assert_eq!(state.resolve(Some(m), 0, 10), CursorSampleState::Unknown);
    assert_eq!(state.resolve(Some(m), 10, 0), CursorSampleState::Unknown);
    // The identity was still taken over.
    assert!(matches!(
        state.resolve(Some(CursorMetadata { id: 0, ..m }), 10, 10),
        CursorSampleState::Known { ref native_cursor_id, visible: true, .. }
            if native_cursor_id == "pipewire:s:9"
    ));
}

#[test]
fn cursor_on_the_far_edge_is_not_visible() {
    let mut state = new_state("s");
    let m = CursorMetadata {
        id: 9,
        shape_id: None,
        cursor_kind: None,
        x: 10,
        y: 3,
        hotspot: None,
    };
    assert!(matches!(
        state.resolve(Some(m), 10, 10),
        CursorSampleState::Known { pixel_x: 10, visible: false, .. }
    ));
    assert!(matches!(
        state.resolve(Some(CursorMetadata { x: 9, y: 9, ..m }), 10, 10),
        CursorSampleState::Known { visible: true, .. }
    ));
}

#[test]
fn shape_id_without_kind_is_custom_and_large_ids_print_in_full() {
    let mut state = new_state("scope");
    let m = CursorMetadata {
        id: 0,
        shape_id: Some(u64::MAX),
        cursor_kind: None,
        x: 0,
        y: 0,
        hotspot: None,
    };
    assert!(matches!(
        state.resolve(Some(m), 1, 1),
        CursorSampleState::Known { ref native_cursor_id, cursor_kind: CursorKind::Custom, .. }
            if native_cursor_id == "pipewire:scope:18446744073709551615"
    ));
}

#[test]
fn raw_id_change_resets_kind_to_custom() {
    let mut state = new_state("s");
    let _ = state.resolve(
        Some(CursorMetadata {
            id: 4,
            shape_id: Some(77),
            cursor_kind: Some(CursorKind::Busy),
            x: 0,
            y: 0,
            hotspot: None,
        }),
        5,
        5,
    );
    assert!(matches!(
        state.resolve(
            Some(CursorMetadata {
                id: 4,
                shape_id: None,
                cursor_kind: None,
                x: 1,
                y: 1,
                hotspot: None,
            }),
            5,
            5,
        ),
        CursorSampleState::Known { cursor_kind: CursorKind::Busy, ref native_cursor_id, .. }
            if native_cursor_id == "pipewire:s:77"
    ));
    assert!(matches!(
        state.resolve(
            Some(CursorMetadata {
                id: 8,
                shape_id: None,
                cursor_kind: None,
                x: 1,
                y: 1,
                hotspot: None,
            }),
            5,
            5,
        ),
        CursorSampleState::Known { cursor_kind: CursorKind::Custom, ref native_cursor_id, .. }
            if native_cursor_id == "pipewire:s:8"
    ));
}

#[test]
fn every_transform_maps_the_crop_corners() {
    let m = CursorMetadata {
        id: 1,
        shape_id: None,
        cursor_kind: None,
        x: 0,
        y: 0,
        hotspot: None,
    };
    let map = |t| {
        let r = map_cursor_metadata(Some(m), 4, 3, None, t).expect("mapped");
        (r.x, r.y)
    };
    assert_eq!(map(VideoTransform::Normal), (0, 0));
    assert_eq!(map(VideoTransform::Rotated90), (0, 3));
    assert_eq!(map(VideoTransform::Rotated180), (3, 2));
    assert_eq!(map(VideoTransform::Rotated270), (2, 0));
    assert_eq!(map(VideoTransform::Flipped), (3, 0));
    assert_eq!(map(VideoTransform::Flipped90), (0, 0));
    assert_eq!(map(VideoTransform::Flipped180), (0, 2));
    assert_eq!(map(VideoTransform::Flipped270), (2, 3));
    assert_eq!(map_cursor_metadata(None, 4, 3, None, VideoTransform::Rotated90), None);
}

#[test]
fn mapping_saturates_beyond_i32() {
    let m = CursorMetadata {
        id: 1,
        shape_id: None,
        cursor_kind: None,
        x: i32::MIN,
        y: i32::MAX,
        hotspot: None,
    };
    let crop = CropRect {
        x: i32::MAX,
        y: i32::MIN,
        width: 10,
        height: 10,
    };
    let r = map_cursor_metadata(Some(m), 0, 0, Some(crop), VideoTransform::Normal).expect("mapped");
    assert_eq!((r.x, r.y), (i32::MIN, i32::MAX));
    assert_eq!(r.id, 1);
}
