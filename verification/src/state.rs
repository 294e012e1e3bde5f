//! Cursor identity and position tracking across PipeWire cursor metadata updates.
use vstd::prelude::*;

use crate::classifier::CursorClassifier;
use crate::cursor::{CursorKind, Hotspot};
use crate::text::{cursor_id_text, spec_cursor_id_text};

verus! {

/// The shape id with which a compositor says that the cursor is hidden.
pub const HIDDEN_CURSOR_SHAPE_ID: u64 = 0;

/// Cursor metadata as read from one PipeWire buffer.
#[derive(Clone, Copy, Debug, PartialEq, Eq, Structural)]
pub struct CursorMetadata {
    /// The raw SPA cursor id.
    pub id: u64,
    /// An identity derived from the bitmap, when the buffer carried one.
    pub shape_id: Option<u64>,
    pub x: i32,
    pub y: i32,
    pub hotspot: Option<Hotspot>,
    pub cursor_kind: Option<CursorKind>,
}

/// What a sample says of the cursor, as plain values.
pub struct SampleView {
    pub native_cursor_id: Seq<char>,
    pub cursor_kind: CursorKind,
    pub pixel_x: i32,
    pub pixel_y: i32,
    pub frame_width: u32,
    pub frame_height: u32,
    pub visible: bool,
    pub hotspot: Option<Hotspot>,
}

/// The cursor as seen in one frame.
///
/// The normalized position of a known cursor is `pixel_x / frame_width` and
/// `pixel_y / frame_height`; the frame size is kept so that callers compute it.
#[derive(Debug, PartialEq, Eq)]
pub enum CursorSampleState {
    Unknown,
    Known {
        native_cursor_id: String,
        cursor_kind: CursorKind,
        pixel_x: i32,
        pixel_y: i32,
        frame_width: u32,
        frame_height: u32,
        visible: bool,
        hotspot: Option<Hotspot>,
    },
}

impl View for CursorSampleState {
    type V = Option<SampleView>;

    open spec fn view(&self) -> Option<SampleView> {
        match self {
            CursorSampleState::Unknown => None,
            CursorSampleState::Known {
                native_cursor_id,
                cursor_kind,
                pixel_x,
                pixel_y,
                frame_width,
                frame_height,
                visible,
                hotspot,
            } => Some(
                SampleView {
                    native_cursor_id: native_cursor_id@,
                    cursor_kind: *cursor_kind,
                    pixel_x: *pixel_x,
                    pixel_y: *pixel_y,
                    frame_width: *frame_width,
                    frame_height: *frame_height,
                    visible: *visible,
                    hotspot: *hotspot,
                },
            ),
        }
    }
}

/// The tracked state, as plain values.
pub struct CursorStateView {
    pub stream_scope: Seq<char>,
    pub native_id: Option<u64>,
    pub last_raw_id: Option<u64>,
    pub last_visible_position: Option<(i32, i32)>,
    pub shape_visible: bool,
    pub cursor_kind: CursorKind,
}

/// Tracks the identity, kind and last visible position of the cursor of one stream.
#[derive(Debug)]
pub struct CursorState {
    stream_scope: String,
    native_id: Option<u64>,
    last_raw_id: Option<u64>,
    last_visible_position: Option<(i32, i32)>,
    shape_visible: bool,
    cursor_kind: CursorKind,
    classifier: CursorClassifier,
}

/// Whether a position lies inside a frame of the given size.
pub open spec fn in_frame(x: i32, y: i32, width: u32, height: u32) -> bool {
    0 <= x < width && 0 <= y < height
}

/// Whether the cursor shape is shown after `m`: a hidden shape id hides it, any
/// other shape id shows it, and an update without a shape keeps it as it was.
pub open spec fn shape_visible_after(s: CursorStateView, m: CursorMetadata) -> bool {
    match m.shape_id {
        Some(id) => id != HIDDEN_CURSOR_SHAPE_ID,
        None => s.shape_visible,
    }
}

/// The identity and kind after `m`, while the shape is shown.
///
/// A non-zero shape id names the cursor (the raw id is then only remembered);
/// without one, a non-zero raw id that differs from the last one names it and
/// resets its kind; anything else keeps the identity.
pub open spec fn identity_after(s: CursorStateView, m: CursorMetadata) -> CursorStateView {
    if m.shape_id is Some && m.shape_id->0 != 0 {
        CursorStateView {
            native_id: m.shape_id,
            cursor_kind: match m.cursor_kind {
                Some(k) => k,
                None => CursorKind::Custom,
            },
            last_raw_id: if m.id != 0 {
                Some(m.id)
            } else {
                s.last_raw_id
            },
            ..s
        }
    } else if m.id != 0 && s.last_raw_id != Some(m.id) {
        CursorStateView {
            native_id: Some(m.id),
            last_raw_id: Some(m.id),
            cursor_kind: CursorKind::Custom,
            ..s
        }
    } else {
        s
    }
}

/// The state after one call of `resolve`.
pub open spec fn resolve_next(
    s: CursorStateView,
    metadata: Option<CursorMetadata>,
    width: u32,
    height: u32,
) -> CursorStateView {
    match metadata {
        None => s,
        Some(m) => {
            let s1 = CursorStateView { shape_visible: shape_visible_after(s, m), ..s };
            if !s1.shape_visible {
                s1
            } else {
                let s2 = identity_after(s1, m);
                if s2.native_id is Some && width != 0 && height != 0 && in_frame(
                    m.x,
                    m.y,
                    width,
                    height,
                ) {
                    CursorStateView { last_visible_position: Some((m.x, m.y)), ..s2 }
                } else {
                    s2
                }
            }
        },
    }
}

/// The sample that one call of `resolve` reports.
pub open spec fn resolve_sample(
    s: CursorStateView,
    metadata: Option<CursorMetadata>,
    width: u32,
    height: u32,
) -> Option<SampleView> {
    match metadata {
        None => None,
        Some(m) => {
            if !shape_visible_after(s, m) {
                if s.native_id is Some && s.last_visible_position is Some && width != 0 && height
                    != 0 {
                    let position = s.last_visible_position->0;
                    Some(
                        SampleView {
                            native_cursor_id: spec_cursor_id_text(s.stream_scope, s.native_id->0),
                            cursor_kind: s.cursor_kind,
                            pixel_x: position.0,
                            pixel_y: position.1,
                            frame_width: width,
                            frame_height: height,
                            visible: false,
                            hotspot: None,
                        },
                    )
                } else {
                    None
                }
            } else {
                let s2 = identity_after(s, m);
                if s2.native_id is Some && width != 0 && height != 0 {
                    Some(
                        SampleView {
                            native_cursor_id: spec_cursor_id_text(
                                s2.stream_scope,
                                s2.native_id->0,
                            ),
                            cursor_kind: s2.cursor_kind,
                            pixel_x: m.x,
                            pixel_y: m.y,
                            frame_width: width,
                            frame_height: height,
                            visible: in_frame(m.x, m.y, width, height),
                            hotspot: m.hotspot,
                        },
                    )
                } else {
                    None
                }
            }
        },
    }
}

impl View for CursorState {
    type V = CursorStateView;

    closed spec fn view(&self) -> CursorStateView {
        CursorStateView {
            stream_scope: self.stream_scope@,
            native_id: self.native_id,
            last_raw_id: self.last_raw_id,
            last_visible_position: self.last_visible_position,
            shape_visible: self.shape_visible,
            cursor_kind: self.cursor_kind,
        }
    }
}

impl CursorState {
    /// The classifier that this stream's bitmaps are classified with.
    pub closed spec fn spec_classifier(&self) -> CursorClassifier {
        self.classifier
    }

    /// A state that knows nothing yet of the cursor of the stream `stream_scope`.
    pub fn new(stream_scope: &str, classifier: CursorClassifier) -> (res: Self)
        ensures
            res@ == (CursorStateView {
                stream_scope: stream_scope@,
                native_id: None,
                last_raw_id: None,
                last_visible_position: None,
                shape_visible: true,
                cursor_kind: CursorKind::Custom,
            }),
            res.spec_classifier() == classifier,
    {
        CursorState {
            stream_scope: String::from_str(stream_scope),
            native_id: None,
            last_raw_id: None,
            last_visible_position: None,
            shape_visible: true,
            cursor_kind: CursorKind::Custom,
            classifier,
        }
    }

    /// The classifier, to classify the bitmaps of this stream with.
    pub fn classifier_mut(&mut self) -> (res: &mut CursorClassifier)
        ensures
            *res == old(self).spec_classifier(),
            final(self)@ == old(self)@,
            final(self).spec_classifier() == *final(res),
    {
        &mut self.classifier
    }

    /// Folds one metadata update into the state and reports the cursor for a
    /// frame of `width` by `height` pixels.
    pub fn resolve(&mut self, metadata: Option<CursorMetadata>, width: u32, height: u32) -> (res:
        CursorSampleState)
        ensures
            final(self)@ == resolve_next(old(self)@, metadata, width, height),
            res@ == resolve_sample(old(self)@, metadata, width, height),
            final(self).spec_classifier() == old(self).spec_classifier(),
    {
        let metadata = match metadata {
            None => return CursorSampleState::Unknown,
            Some(m) => m,
        };
        match metadata.shape_id {
            Some(id) => {
                self.shape_visible = id != HIDDEN_CURSOR_SHAPE_ID;
            },
            None => {},
        }
        if !self.shape_visible {
            let native_id = match self.native_id {
                Some(id) => id,
                None => return CursorSampleState::Unknown,
            };
            let (pixel_x, pixel_y) = match self.last_visible_position {
                Some(p) => p,
                None => return CursorSampleState::Unknown,
            };
            if width == 0 || height == 0 {
                return CursorSampleState::Unknown;
            }
            return CursorSampleState::Known {
                native_cursor_id: cursor_id_text(&self.stream_scope, native_id),
                cursor_kind: self.cursor_kind,
                pixel_x,
                pixel_y,
                frame_width: width,
                frame_height: height,
                visible: false,
                hotspot: None,
            };
        }
        let bitmap_shape = match metadata.shape_id {
            Some(id) => if id != 0 {
                Some(id)
            } else {
                None
            },
            None => None,
        };
        match bitmap_shape {
            Some(shape_id) => {
                // Mutter keeps the raw cursor id at 1 across shape changes, so the
                // identity derived from the bitmap names the cursor.
                self.native_id = Some(shape_id);
                self.cursor_kind = match metadata.cursor_kind {
                    Some(k) => k,
                    None => CursorKind::Custom,
                };
                if metadata.id != 0 {
                    self.last_raw_id = Some(metadata.id);
                }
            },
            None => {
                let same_raw = match self.last_raw_id {
                    Some(raw) => raw == metadata.id,
                    None => false,
                };
                if metadata.id != 0 && !same_raw {
                    // Other compositors change the raw id without sending a bitmap again.
                    self.native_id = Some(metadata.id);
                    self.last_raw_id = Some(metadata.id);
                    self.cursor_kind = CursorKind::Custom;
                }
            },
        }
        let native_id = match self.native_id {
            Some(id) => id,
            None => return CursorSampleState::Unknown,
        };
        if width == 0 || height == 0 {
            return CursorSampleState::Unknown;
        }
        let visible = metadata.x >= 0 && metadata.y >= 0 && (metadata.x as u32) < width
            && (metadata.y as u32) < height;
        if visible {
            self.last_visible_position = Some((metadata.x, metadata.y));
        }
        CursorSampleState::Known {
            native_cursor_id: cursor_id_text(&self.stream_scope, native_id),
            cursor_kind: self.cursor_kind,
            pixel_x: metadata.x,
            pixel_y: metadata.y,
            frame_width: width,
            frame_height: height,
            visible,
            hotspot: metadata.hotspot,
        }
    }
}


/// The part of the source frame that a stream shows.
#[derive(Clone, Copy, Debug, PartialEq, Eq, Structural)]
pub struct CropRect {
    pub x: i32,
    pub y: i32,
    pub width: u32,
    pub height: u32,
}

/// How the compositor rotated or flipped the frame.
#[derive(Clone, Copy, Debug, PartialEq, Eq, Structural)]
pub enum VideoTransform {
    Normal,
    Rotated90,
    Rotated180,
    Rotated270,
    Flipped,
    Flipped90,
    Flipped180,
    Flipped270,
}

/// Where the point `(x, y)` of a `width` by `height` area lands under `transform`.
pub open spec fn transform_point(x: int, y: int, width: int, height: int, transform: VideoTransform) -> (int, int) {
    match transform {
        VideoTransform::Normal => (x, y),
        VideoTransform::Rotated90 => (y, width - 1 - x),
        VideoTransform::Rotated180 => (width - 1 - x, height - 1 - y),
        VideoTransform::Rotated270 => (height - 1 - y, x),
        VideoTransform::Flipped => (width - 1 - x, y),
        VideoTransform::Flipped90 => (y, x),
        VideoTransform::Flipped180 => (x, height - 1 - y),
        VideoTransform::Flipped270 => (height - 1 - y, width - 1 - x),
    }
}

/// `v` clamped to the range of `i32`.
pub open spec fn saturate_i32(v: int) -> i32 {
    if v < i32::MIN {
        i32::MIN
    } else if v > i32::MAX {
        i32::MAX
    } else {
        v as i32
    }
}

/// The crop used when the stream names none: the whole source frame.
pub open spec fn effective_crop(crop: Option<CropRect>, source_width: u32, source_height: u32) -> CropRect {
    match crop {
        Some(c) => c,
        None => CropRect { x: 0, y: 0, width: source_width, height: source_height },
    }
}

/// Metadata whose position is moved into the cropped and transformed frame.
pub open spec fn spec_map_cursor_metadata(
    metadata: Option<CursorMetadata>,
    source_width: u32,
    source_height: u32,
    crop: Option<CropRect>,
    transform: VideoTransform,
) -> Option<CursorMetadata> {
    match metadata {
        None => None,
        Some(m) => {
            let c = effective_crop(crop, source_width, source_height);
            let p = transform_point(m.x - c.x, m.y - c.y, c.width as int, c.height as int, transform);
            Some(CursorMetadata { x: saturate_i32(p.0), y: saturate_i32(p.1), ..m })
        },
    }
}

fn saturating_i32(v: i64) -> (res: i32)
    ensures
        res == saturate_i32(v as int),
{
    if v < i32::MIN as i64 {
        i32::MIN
    } else if v > i32::MAX as i64 {
        i32::MAX
    } else {
        v as i32
    }
}

/// Moves the cursor position of `metadata` from source-frame coordinates into the
/// coordinates of the cropped frame after `transform`; positions outside the
/// frame keep their sign, and values beyond `i32` saturate.
pub fn map_cursor_metadata(
    metadata: Option<CursorMetadata>,
    source_width: u32,
    source_height: u32,
    crop: Option<CropRect>,
    transform: VideoTransform,
) -> (res: Option<CursorMetadata>)
    ensures
        res == spec_map_cursor_metadata(metadata, source_width, source_height, crop, transform),
{
    let mut metadata = match metadata {
        None => return None,
        Some(m) => m,
    };
    let crop = match crop {
        Some(c) => c,
        None => CropRect { x: 0, y: 0, width: source_width, height: source_height },
    };
    let x: i64 = metadata.x as i64 - crop.x as i64;
    let y: i64 = metadata.y as i64 - crop.y as i64;
    let width: i64 = crop.width as i64;
    let height: i64 = crop.height as i64;
    let (x, y): (i64, i64) = match transform {
        VideoTransform::Normal => (x, y),
        VideoTransform::Rotated90 => (y, width - 1 - x),
        VideoTransform::Rotated180 => (width - 1 - x, height - 1 - y),
        VideoTransform::Rotated270 => (height - 1 - y, x),
        VideoTransform::Flipped => (width - 1 - x, y),
        VideoTransform::Flipped90 => (y, x),
        VideoTransform::Flipped180 => (x, height - 1 - y),
        VideoTransform::Flipped270 => (height - 1 - y, width - 1 - x),
    };
    metadata.x = saturating_i32(x);
    metadata.y = saturating_i32(y);
    Some(metadata)
}

} // verus!
