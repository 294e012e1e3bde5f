use capture::bitmap::{canonical_bitmap, image_signature, xcursor_pixels_to_rgba, VideoFormat};
use capture::classifier::{candidate, classifier, CursorClassifier};
use capture::cursor::{CursorKind, Hotspot};

#[test]
fn classifies_theme_pixels_without_persisting_them() {
    let pixels = [
        [0, 0, 0, 0],
        [20, 30, 40, 255],
        [0, 0, 0, 0],
        [80, 90, 100, 255],
    ];
    let mut classifier = classifier(vec![candidate(
        CursorKind::Handpointing,
        &pixels,
        Hotspot { x: 1, y: 0 },
    )]);
    let bgra: Vec<u8> = pixels
        .iter()
        .flat_map(|pixel| [pixel[2], pixel[1], pixel[0], pixel[3]])
        .collect();
    assert_eq!(
        classifier.classify(7, VideoFormat::BGRA, 2, 2, 8, &bgra, Hotspot { x: 1, y: 0 }),
        CursorKind::Handpointing
    );
}

#[test]
fn rejects_unknown_or_ambiguous_shapes() {
    let arrow = [
        [0, 0, 0, 0],
        [255, 255, 255, 255],
        [0, 0, 0, 0],
        [0, 0, 0, 0],
    ];
    let mut unknown = classifier(vec![candidate(
        CursorKind::Default,
        &arrow,
        Hotspot { x: 0, y: 0 },
    )]);
    assert_eq!(
        unknown.classify(
            8,
            VideoFormat::RGBA,
            2,
            2,
            8,
            &[255; 16],
            Hotspot { x: 1, y: 1 }
        ),
        CursorKind::Custom
    );

    let mut ambiguous = classifier(vec![
        candidate(CursorKind::Default, &arrow, Hotspot { x: 0, y: 0 }),
        candidate(CursorKind::Cross, &arrow, Hotspot { x: 0, y: 0 }),
    ]);
    let rgba: Vec<u8> = arrow.iter().flatten().copied().collect();
    assert_eq!(
        ambiguous.classify(9, VideoFormat::RGBA, 2, 2, 8, &rgba, Hotspot { x: 0, y: 0 }),
        CursorKind::Custom
    );
}

#[test]
fn normalizes_channel_order_stride_and_transparency() {
    let bgra = [3, 2, 1, 255, 9, 8, 7, 0, 0, 0, 0, 0];
    assert_eq!(
        canonical_bitmap(VideoFormat::BGRA, 2, 1, 12, &bgra),
        Some(vec![1, 2, 3, 255, 0, 0, 0, 0])
    );
    assert!(canonical_bitmap(VideoFormat::RGB, 2, 1, 8, &bgra).is_none());
    assert!(canonical_bitmap(VideoFormat::RGBA, 2, 1, 4, &bgra).is_none());
}

#[test]
fn detects_fully_transparent_cursor_bitmap_with_nonzero_color_channels() {
    assert!(CursorClassifier::is_fully_transparent(
        VideoFormat::BGRA,
        2,
        1,
        8,
        &[30, 20, 10, 0, 60, 50, 40, 0],
    ));
}

#[test]
fn cursor_bitmap_with_any_visible_alpha_is_not_transparent() {
    assert!(!CursorClassifier::is_fully_transparent(
        VideoFormat::RGBA,
        2,
        1,
        8,
        &[10, 20, 30, 0, 40, 50, 60, 1],
    ));
}

#[test]
fn unsupported_cursor_bitmap_format_is_not_assumed_transparent() {
    assert!(!CursorClassifier::is_fully_transparent(
        VideoFormat::RGB,
        2,
        1,
        8,
        &[0; 8],
    ));
}

#[test]
fn negative_stride_reads_rows_bottom_up() {
    // Two rows of one ARGB pixel each, stored bottom row first.
    let argb = [255, 1, 2, 3, 255, 4, 5, 6];
    assert_eq!(
        canonical_bitmap(VideoFormat::ARGB, 1, 2, -4, &argb),
        Some(vec![4, 5, 6, 255, 1, 2, 3, 255])
    );
    assert_eq!(
        canonical_bitmap(VideoFormat::ABGR, 1, 2, 4, &argb),
        Some(vec![3, 2, 1, 255, 6, 5, 4, 255])
    );
}

#[test]
fn empty_or_short_bitmaps_do_not_normalize() {
    assert!(canonical_bitmap(VideoFormat::RGBA, 0, 1, 4, &[1, 2, 3, 4]).is_none());
    assert!(canonical_bitmap(VideoFormat::RGBA, 1, 0, 4, &[1, 2, 3, 4]).is_none());
    assert!(canonical_bitmap(VideoFormat::RGBA, 1, 2, 4, &[1, 2, 3, 4]).is_none());
    assert!(!CursorClassifier::is_fully_transparent(VideoFormat::RGBA, 1, 2, 4, &[0; 4]));
}

#[test]
fn signature_samples_the_pixel_under_each_center() {
    // A one-pixel image fills the whole signature.
    let signature = image_signature(&[9, 8, 7, 6], 1, 1).expect("signature");
    assert_eq!(signature.len(), 2304);
    assert!(signature.chunks(4).all(|p| p == [9, 8, 7, 6]));
    // In a 48 pixel wide row, signature column x samples source column 2x + 1.
    let row: Vec<u8> = (0..48u8).flat_map(|x| [x, 0, 0, 255]).collect();
    let signature = image_signature(&row, 48, 1).expect("signature");
    for x in 0..24 {
        assert_eq!(signature[x * 4], (2 * x + 1) as u8);
    }
    assert!(image_signature(&[0; 12], 2, 2).is_none());
    assert!(image_signature(&[], 0, 0).is_none());
}

#[test]
fn xcursor_pixels_are_reordered_and_transparent_ones_cleared() {
    assert_eq!(
        xcursor_pixels_to_rgba(&[3, 2, 1, 9, 7, 7, 7, 0, 5]),
        vec![1, 2, 3, 9, 0, 0, 0, 0]
    );
}

#[test]
fn cached_shape_keeps_its_kind_whatever_bitmap_follows() {
    let pixels = [
        [0, 0, 0, 0],
        [20, 30, 40, 255],
        [0, 0, 0, 0],
        [80, 90, 100, 255],
    ];
    let mut classifier = classifier(vec![candidate(
        CursorKind::Help,
        &pixels,
        Hotspot { x: 1, y: 0 },
    )]);
    let rgba: Vec<u8> = pixels.iter().flatten().copied().collect();
    assert_eq!(
        classifier.classify(3, VideoFormat::RGBA, 2, 2, 8, &rgba, Hotspot { x: 1, y: 0 }),
        CursorKind::Help
    );
    // A different bitmap under the same shape id is not looked at again.
    assert_eq!(
        classifier.classify(3, VideoFormat::RGBA, 2, 2, 8, &[255; 16], Hotspot { x: 0, y: 0 }),
        CursorKind::Help
    );
    // Under a new id, the same different bitmap is classified afresh.
    assert_eq!(
        classifier.classify(4, VideoFormat::RGBA, 2, 2, 8, &[255; 16], Hotspot { x: 0, y: 0 }),
        CursorKind::Custom
    );
}

#[test]
fn clear_margin_between_kinds_picks_the_closer_kind() {
    let arrow = [
        [0, 0, 0, 0],
        [255, 255, 255, 255],
        [0, 0, 0, 0],
        [0, 0, 0, 0],
    ];
    let cross = [
        [255, 255, 255, 255],
        [0, 0, 0, 0],
        [0, 0, 0, 0],
        [255, 255, 255, 255],
    ];
    let classifier = classifier(vec![
        candidate(CursorKind::Default, &arrow, Hotspot { x: 0, y: 0 }),
        candidate(CursorKind::Cross, &cross, Hotspot { x: 1, y: 1 }),
        candidate(CursorKind::Cross, &arrow, Hotspot { x: 2, y: 2 }),
    ]);
    let rgba: Vec<u8> = arrow.iter().flatten().copied().collect();
    // The arrow with the arrow's hotspot scores 0 for Default; the best Cross image is the
    // arrow with the hotspot a whole image away, scoring 0.4.
    assert_eq!(
        classifier.match_pixels(2, 2, Hotspot { x: 0, y: 0 }, &rgba),
        Some(CursorKind::Default)
    );
    assert_eq!(CursorClassifier::system(Vec::new()).match_pixels(2, 2, Hotspot { x: 0, y: 0 }, &rgba), None);
    assert_eq!(classifier.match_pixels(2, 2, Hotspot { x: 0, y: 0 }, &rgba[..12]), None);
}

#[test]
fn score_threshold_is_nine_fiftieths() {
    let pixels = [
        [0, 0, 0, 0],
        [255, 255, 255, 255],
        [0, 0, 0, 0],
        [0, 0, 0, 0],
    ];
    let classifier = classifier(vec![candidate(
        CursorKind::Move,
        &pixels,
        Hotspot { x: 0, y: 0 },
    )]);
    let rgba: Vec<u8> = pixels.iter().flatten().copied().collect();
    // Hotspot distance 0.5 + 0.5 weighs 1/5: above 9/50.
    assert_eq!(classifier.match_pixels(2, 2, Hotspot { x: 1, y: 1 }, &rgba), None);
    // Hotspot distance 0.5 weighs 1/10: within 9/50.
    assert_eq!(
        classifier.match_pixels(2, 2, Hotspot { x: 1, y: 0 }, &rgba),
        Some(CursorKind::Move)
    );
}

#[test]
fn theme_hotspots_beyond_the_image_are_compared_relatively() {
    let arrow = [
        [0, 0, 0, 0],
        [255, 255, 255, 255],
        [0, 0, 0, 0],
        [0, 0, 0, 0],
    ];
    let rgba: Vec<u8> = arrow.iter().flatten().copied().collect();
    let beyond = classifier(vec![candidate(CursorKind::Textcursor, &arrow, Hotspot { x: 5, y: 0 })]);
    assert_eq!(beyond.match_pixels(2, 2, Hotspot { x: 5, y: 0 }, &rgba), Some(CursorKind::Textcursor));
    assert_eq!(beyond.match_pixels(2, 2, Hotspot { x: 0, y: 0 }, &rgba), None);
    let far = Hotspot { x: u32::MAX, y: u32::MAX };
    let farthest = classifier(vec![candidate(CursorKind::Busy, &arrow, far)]);
    assert_eq!(farthest.match_pixels(2, 2, far, &rgba), Some(CursorKind::Busy));
    assert_eq!(farthest.match_pixels(2, 2, Hotspot { x: 0, y: 0 }, &rgba), None);
}

#[test]
fn a_worse_image_of_a_known_kind_changes_nothing() {
    let arrow = [
        [0, 0, 0, 0],
        [255, 255, 255, 255],
        [0, 0, 0, 0],
        [0, 0, 0, 0],
    ];
    let cross = [
        [255, 255, 255, 255],
        [0, 0, 0, 0],
        [0, 0, 0, 0],
        [255, 255, 255, 255],
    ];
    let rgba: Vec<u8> = arrow.iter().flatten().copied().collect();
    let here = Hotspot { x: 0, y: 0 };
    let picked = classifier(vec![
        candidate(CursorKind::Default, &arrow, here),
        candidate(CursorKind::Cross, &cross, Hotspot { x: 1, y: 1 }),
    ]);
    let picked_more = classifier(vec![
        candidate(CursorKind::Default, &arrow, here),
        candidate(CursorKind::Cross, &cross, Hotspot { x: 1, y: 1 }),
        candidate(CursorKind::Default, &cross, Hotspot { x: 2, y: 2 }),
    ]);
    assert_eq!(picked.match_pixels(2, 2, here, &rgba), Some(CursorKind::Default));
    assert_eq!(picked_more.match_pixels(2, 2, here, &rgba), Some(CursorKind::Default));
    let tied = classifier(vec![
        candidate(CursorKind::Default, &arrow, here),
        candidate(CursorKind::Cross, &arrow, here),
    ]);
    let tied_more = classifier(vec![
        candidate(CursorKind::Default, &arrow, here),
        candidate(CursorKind::Cross, &arrow, here),
        candidate(CursorKind::Cross, &arrow, Hotspot { x: 1, y: 1 }),
    ]);
    assert_eq!(tied.match_pixels(2, 2, here, &rgba), None);
    assert_eq!(tied_more.match_pixels(2, 2, here, &rgba), None);
}

#[test]
fn a_score_of_exactly_nine_fiftieths_matches() {
    let white = [[255, 255, 255, 255]; 4];
    let classifier = classifier(vec![candidate(CursorKind::Default, &white, Hotspot { x: 0, y: 0 })]);
    let rgba = vec![255u8; 10 * 10 * 4];
    // Hotspot distance 9/10 weighs exactly 9/50.
    assert_eq!(
        classifier.match_pixels(10, 10, Hotspot { x: 9, y: 0 }, &rgba),
        Some(CursorKind::Default)
    );
    assert_eq!(classifier.match_pixels(10, 10, Hotspot { x: 10, y: 0 }, &rgba), None);
}
