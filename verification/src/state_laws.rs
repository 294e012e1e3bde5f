//! Laws of cursor tracking, stated over the transition of `CursorState::resolve`.
use vstd::prelude::*;

use crate::cursor::CursorKind;
use crate::state::{
    spec_map_cursor_metadata, CropRect, VideoTransform,
    in_frame, resolve_next, resolve_sample, shape_visible_after, CursorMetadata, CursorStateView,
    HIDDEN_CURSOR_SHAPE_ID,
};
use crate::text::spec_cursor_id_text;

verus! {

/// What every reachable state satisfies: identities are never zero, the last visible
/// position lies at non-negative coordinates, and a position is only remembered for
/// a cursor that has an identity.
pub open spec fn tracking_invariant(s: CursorStateView) -> bool {
    &&& s.native_id != Some(0u64)
    &&& s.last_raw_id != Some(0u64)
    &&& (s.last_visible_position matches Some(p) ==> p.0 >= 0 && p.1 >= 0)
    &&& (s.native_id is None ==> s.last_visible_position is None)
}

/// A fresh state satisfies the tracking invariant.
pub proof fn lemma_initial_state_invariant(scope: Seq<char>)
    ensures
        tracking_invariant(
            CursorStateView {
                stream_scope: scope,
                native_id: None,
                last_raw_id: None,
                last_visible_position: None,
                shape_visible: true,
                cursor_kind: CursorKind::Custom,
            },
        ),
{
}

/// Every call of `resolve` keeps the tracking invariant, and never changes the stream scope.
pub proof fn lemma_resolve_preserves_invariant(
    s: CursorStateView,
    metadata: Option<CursorMetadata>,
    width: u32,
    height: u32,
)
    requires
        tracking_invariant(s),
    ensures
        tracking_invariant(resolve_next(s, metadata, width, height)),
        resolve_next(s, metadata, width, height).stream_scope == s.stream_scope,
{
}

/// Without metadata the cursor is unknown and nothing is remembered.
pub proof fn lemma_missing_metadata_is_unknown(s: CursorStateView, width: u32, height: u32)
    ensures
        resolve_next(s, None, width, height) == s,
        resolve_sample(s, None, width, height) is None,
{
}

/// A hidden shape never moves the cursor: the sample reports the last visible
/// position, as not visible, and the state keeps that position and the identity.
/// Before any visible position the cursor is unknown.
pub proof fn lemma_hidden_shape_keeps_position(
    s: CursorStateView,
    m: CursorMetadata,
    width: u32,
    height: u32,
)
    requires
        !shape_visible_after(s, m),
    ensures
        ({
            let next = resolve_next(s, Some(m), width, height);
            &&& next.last_visible_position == s.last_visible_position
            &&& next.native_id == s.native_id
            &&& next.cursor_kind == s.cursor_kind
            &&& !next.shape_visible
        }),
        resolve_sample(s, Some(m), width, height) is Some <==> (s.native_id is Some
            && s.last_visible_position is Some && width != 0 && height != 0),
        resolve_sample(s, Some(m), width, height) matches Some(v) ==> {
            &&& s.last_visible_position == Some((v.pixel_x, v.pixel_y))
            &&& !v.visible
            &&& v.hotspot is None
            &&& v.native_cursor_id == spec_cursor_id_text(s.stream_scope, s.native_id->0)
        },
{
}

/// An update without a bitmap whose raw id is zero or unchanged keeps the cursor's
/// identity and kind.
pub proof fn lemma_position_only_update_keeps_identity(
    s: CursorStateView,
    m: CursorMetadata,
    width: u32,
    height: u32,
)
    requires
        m.shape_id is None,
        m.id == 0 || s.last_raw_id == Some(m.id),
    ensures
        resolve_next(s, Some(m), width, height).native_id == s.native_id,
        resolve_next(s, Some(m), width, height).cursor_kind == s.cursor_kind,
        resolve_next(s, Some(m), width, height).last_raw_id == s.last_raw_id,
{
}

/// A non-zero shape id names the cursor, whatever its raw id, and carries the kind
/// classified for it (or `Custom`).
pub proof fn lemma_bitmap_shape_names_cursor(
    s: CursorStateView,
    m: CursorMetadata,
    shape_id: u64,
    width: u32,
    height: u32,
)
    requires
        m.shape_id == Some(shape_id),
        shape_id != HIDDEN_CURSOR_SHAPE_ID,
    ensures
        resolve_next(s, Some(m), width, height).native_id == Some(shape_id),
        resolve_next(s, Some(m), width, height).cursor_kind == (match m.cursor_kind {
            Some(k) => k,
            None => CursorKind::Custom,
        }),
        width != 0 && height != 0 ==> (resolve_sample(s, Some(m), width, height) matches Some(v)
            && v.native_cursor_id == spec_cursor_id_text(s.stream_scope, shape_id)
            && v.pixel_x == m.x && v.pixel_y == m.y),
{
}

/// While the shape is shown, a new non-zero raw id without a bitmap names the cursor
/// and resets its kind to `Custom`.
pub proof fn lemma_raw_id_change_names_cursor(
    s: CursorStateView,
    m: CursorMetadata,
    width: u32,
    height: u32,
)
    requires
        s.shape_visible,
        m.shape_id is None,
        m.id != 0,
        s.last_raw_id != Some(m.id),
    ensures
        resolve_next(s, Some(m), width, height).native_id == Some(m.id),
        resolve_next(s, Some(m), width, height).last_raw_id == Some(m.id),
        resolve_next(s, Some(m), width, height).cursor_kind == CursorKind::Custom,
{
}

/// A known sample always comes with a non-empty frame, and while the shape is shown
/// it reports the metadata position, visible exactly when that lies in the frame,
/// which then becomes the last visible position.
pub proof fn lemma_shown_sample_position(
    s: CursorStateView,
    m: CursorMetadata,
    width: u32,
    height: u32,
)
    requires
        shape_visible_after(s, m),
    ensures
        resolve_sample(s, Some(m), width, height) matches Some(v) ==> {
            &&& width != 0 && height != 0
            &&& v.pixel_x == m.x && v.pixel_y == m.y
            &&& v.visible == in_frame(m.x, m.y, width, height)
            &&& v.frame_width == width && v.frame_height == height
            &&& v.visible ==> resolve_next(s, Some(m), width, height).last_visible_position == Some(
                (m.x, m.y),
            )
        },
        resolve_sample(s, Some(m), width, height) is None ==> resolve_next(
            s,
            Some(m),
            width,
            height,
        ).last_visible_position == s.last_visible_position,
{
}

/// Without any identity yet, an update that has neither a shape id nor a raw id
/// leaves the cursor unknown.
pub proof fn lemma_no_identity_is_unknown(s: CursorStateView, m: CursorMetadata, width: u32, height: u32)
    requires
        s.native_id is None,
        m.shape_id is None,
        m.id == 0,
    ensures
        resolve_sample(s, Some(m), width, height) is None,
        resolve_next(s, Some(m), width, height).native_id is None,
{
}


/// Without a crop and without a transform the cursor position is kept as it is.
pub proof fn lemma_untransformed_uncropped_position_is_kept(
    m: CursorMetadata,
    source_width: u32,
    source_height: u32,
)
    ensures
        spec_map_cursor_metadata(Some(m), source_width, source_height, None, VideoTransform::Normal)
            == Some(m),
{
}

/// Mapping moves only the position: the ids, the hotspot and the kind are kept, and
/// missing metadata stays missing.
pub proof fn lemma_mapping_keeps_identity(
    metadata: Option<CursorMetadata>,
    source_width: u32,
    source_height: u32,
    crop: Option<CropRect>,
    transform: VideoTransform,
)
    ensures
        metadata is None ==> spec_map_cursor_metadata(
            metadata,
            source_width,
            source_height,
            crop,
            transform,
        ) is None,
        metadata matches Some(m) ==> (spec_map_cursor_metadata(
            metadata,
            source_width,
            source_height,
            crop,
            transform,
        ) matches Some(r) && r.id == m.id && r.shape_id == m.shape_id && r.hotspot == m.hotspot
            && r.cursor_kind == m.cursor_kind),
{
}

/// The last visible position only ever changes to the position of the metadata just
/// received, and only when that position lies inside the frame: a position off the
/// frame is never remembered as one where the cursor was seen.
pub proof fn lemma_last_visible_position_is_in_frame(
    s: CursorStateView,
    metadata: Option<CursorMetadata>,
    width: u32,
    height: u32,
)
    ensures
        ({
            let next = resolve_next(s, metadata, width, height);
            next.last_visible_position != s.last_visible_position ==> {
                &&& metadata is Some
                &&& next.last_visible_position == Some((metadata->0.x, metadata->0.y))
                &&& 0 <= metadata->0.x && metadata->0.x < width
                &&& 0 <= metadata->0.y && metadata->0.y < height
            }
        }),
{
}

/// A cursor named by a bitmap and seen inside the frame is remembered there, and is
/// reported there as visible.
pub proof fn lemma_shape_seen_in_frame_is_remembered(
    s: CursorStateView,
    m: CursorMetadata,
    width: u32,
    height: u32,
)
    requires
        m.shape_id matches Some(id) && id != 0,
        0 <= m.x && m.x < width,
        0 <= m.y && m.y < height,
    ensures
        resolve_next(s, Some(m), width, height).last_visible_position == Some((m.x, m.y)),
        resolve_sample(s, Some(m), width, height) matches Some(v) && v.visible && v.pixel_x == m.x
            && v.pixel_y == m.y,
{
}

/// A sample is reported as visible only at a position inside the frame; a sample of a
/// hidden shape is never visible and reports the last position where the cursor was
/// seen.
pub proof fn lemma_visible_sample_lies_in_frame(
    s: CursorStateView,
    m: CursorMetadata,
    width: u32,
    height: u32,
)
    ensures
        resolve_sample(s, Some(m), width, height) matches Some(v) ==> (v.visible ==> {
            &&& 0 <= v.pixel_x && v.pixel_x < width
            &&& 0 <= v.pixel_y && v.pixel_y < height
        }),
        m.shape_id == Some(HIDDEN_CURSOR_SHAPE_ID) ==> (resolve_sample(s, Some(m), width, height) matches Some(v)
            ==> !v.visible && s.last_visible_position == Some((v.pixel_x, v.pixel_y))),
{
}

/// The crop that an absent crop stands for is the whole source frame.
pub proof fn lemma_missing_crop_is_whole_frame(
    metadata: Option<CursorMetadata>,
    source_width: u32,
    source_height: u32,
    transform: VideoTransform,
)
    ensures
        spec_map_cursor_metadata(metadata, source_width, source_height, None, transform)
            == spec_map_cursor_metadata(
            metadata,
            source_width,
            source_height,
            Some(CropRect { x: 0, y: 0, width: source_width, height: source_height }),
            transform,
        ),
{
}

/// Whether `m` lies inside `crop`, with the crop small enough that every position in it
/// fits `i32`.
pub open spec fn inside_crop(m: CursorMetadata, crop: CropRect) -> bool {
    &&& crop.width <= i32::MAX
    &&& crop.height <= i32::MAX
    &&& crop.x <= m.x && m.x - crop.x < crop.width
    &&& crop.y <= m.y && m.y - crop.y < crop.height
}

/// The position of `m` after mapping it with `crop` and `transform`.
pub open spec fn mapped(m: CursorMetadata, crop: CropRect, transform: VideoTransform) -> CursorMetadata {
    spec_map_cursor_metadata(Some(m), 0, 0, Some(crop), transform)->0
}

/// The crop of a whole frame of `width` by `height` pixels.
pub open spec fn whole(width: u32, height: u32) -> CropRect {
    CropRect { x: 0, y: 0, width, height }
}

/// Where the transforms take a position inside the crop, relative to its top-left
/// corner at `(x, y)` in a `w` by `h` crop: mirroring turns `x` into `w - 1 - x` (and
/// `y` into `h - 1 - y`), and the quarter turns and transposing flips exchange the
/// axes. Each coordinate of the result depends on one coordinate of the position.
pub proof fn lemma_transform_positions(m: CursorMetadata, crop: CropRect)
    requires
        inside_crop(m, crop),
    ensures
        ({
            let x = m.x - crop.x;
            let y = m.y - crop.y;
            let w = crop.width as int;
            let h = crop.height as int;
            &&& mapped(m, crop, VideoTransform::Normal).x == x
            &&& mapped(m, crop, VideoTransform::Normal).y == y
            &&& mapped(m, crop, VideoTransform::Rotated180).x == w - 1 - x
            &&& mapped(m, crop, VideoTransform::Rotated180).y == h - 1 - y
            &&& mapped(m, crop, VideoTransform::Flipped).x == w - 1 - x
            &&& mapped(m, crop, VideoTransform::Flipped).y == y
            &&& mapped(m, crop, VideoTransform::Flipped180).x == x
            &&& mapped(m, crop, VideoTransform::Flipped180).y == h - 1 - y
            &&& mapped(m, crop, VideoTransform::Flipped90).x == y
            &&& mapped(m, crop, VideoTransform::Flipped90).y == x
            &&& mapped(m, crop, VideoTransform::Rotated90).x == y
            &&& mapped(m, crop, VideoTransform::Rotated90).y == w - 1 - x
            &&& mapped(m, crop, VideoTransform::Rotated270).x == h - 1 - y
            &&& mapped(m, crop, VideoTransform::Rotated270).y == x
            &&& mapped(m, crop, VideoTransform::Flipped270).x == h - 1 - y
            &&& mapped(m, crop, VideoTransform::Flipped270).y == w - 1 - x
        }),
{
}

/// The transforms undo one another as rotations and reflections do: a half turn and
/// each flip undo themselves, a quarter turn the other way undoes a quarter turn, and
/// two quarter turns make a half turn. A transform that exchanges the axes gives a
/// frame whose sides are exchanged, in which the second mapping is made.
pub proof fn lemma_transforms_compose(m: CursorMetadata, crop: CropRect)
    requires
        inside_crop(m, crop),
    ensures
        ({
            let home = CursorMetadata { x: (m.x - crop.x) as i32, y: (m.y - crop.y) as i32, ..m };
            let same = whole(crop.width, crop.height);
            let turned = whole(crop.height, crop.width);
            &&& mapped(mapped(m, crop, VideoTransform::Rotated180), same, VideoTransform::Rotated180)
                == home
            &&& mapped(mapped(m, crop, VideoTransform::Flipped), same, VideoTransform::Flipped) == home
            &&& mapped(mapped(m, crop, VideoTransform::Flipped180), same, VideoTransform::Flipped180)
                == home
            &&& mapped(mapped(m, crop, VideoTransform::Flipped90), turned, VideoTransform::Flipped90)
                == home
            &&& mapped(mapped(m, crop, VideoTransform::Flipped270), turned, VideoTransform::Flipped270)
                == home
            &&& mapped(mapped(m, crop, VideoTransform::Rotated90), turned, VideoTransform::Rotated270)
                == home
            &&& mapped(mapped(m, crop, VideoTransform::Rotated270), turned, VideoTransform::Rotated90)
                == home
            &&& mapped(mapped(m, crop, VideoTransform::Rotated90), turned, VideoTransform::Rotated90)
                == mapped(m, crop, VideoTransform::Rotated180)
        }),
{
}

} // verus!
