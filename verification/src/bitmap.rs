//! Cursor bitmaps: normalization into RGBA and the downsampled signature that
//! classification compares.
use vstd::prelude::*;

verus! {

/// Pixel layouts of cursor bitmaps. The four 32-bit layouts with alpha are the ones
/// that can be normalized; any other layout is not.
#[derive(Clone, Copy, Debug, PartialEq, Eq, Structural)]
pub enum VideoFormat {
    RGBA,
    BGRA,
    ARGB,
    ABGR,
    RGB,
    BGR,
    RGBx,
    BGRx,
    Other,
}

/// The side of the square signature an image is downsampled to.
pub const SIGNATURE_SIDE: usize = 24;

/// The length in bytes of an image signature: `SIGNATURE_SIDE * SIGNATURE_SIDE` RGBA pixels.
pub const SIGNATURE_LEN: usize = 2304;

/// Index of channel `c` of pixel `(x, y)` in a tightly packed RGBA image `width` pixels wide.
pub open spec fn byte_index(width: int, y: int, x: int, c: int) -> int {
    (y * width + x) * 4 + c
}

/// The pixel `p` with its channels put in RGBA order, when `format` has four channels with alpha.
pub open spec fn reorder_channels(format: VideoFormat, p: Seq<u8>) -> Option<Seq<u8>> {
    match format {
        VideoFormat::RGBA => Some(seq![p[0], p[1], p[2], p[3]]),
        VideoFormat::BGRA => Some(seq![p[2], p[1], p[0], p[3]]),
        VideoFormat::ARGB => Some(seq![p[1], p[2], p[3], p[0]]),
        VideoFormat::ABGR => Some(seq![p[3], p[2], p[1], p[0]]),
        _ => None,
    }
}

/// Whether `format` can be normalized into RGBA.
pub open spec fn supported_format(format: VideoFormat) -> bool {
    reorder_channels(format, seq![0u8, 0u8, 0u8, 0u8]) is Some
}

/// An RGBA pixel with its color cleared when it is fully transparent.
pub open spec fn normalized_pixel(p: Seq<u8>) -> Seq<u8> {
    if p[3] == 0 {
        seq![0u8, 0u8, 0u8, 0u8]
    } else {
        p
    }
}

/// Appends `pixel`, an RGBA pixel, to `output`, with its color cleared when it is
/// fully transparent.
pub fn push_normalized_pixel(output: &mut Vec<u8>, pixel: [u8; 4])
    ensures
        final(output)@ == old(output)@ + normalized_pixel(pixel@),
{
    let mut p = pixel;
    if p[3] == 0 {
        p[0] = 0;
        p[1] = 0;
        p[2] = 0;
    }
    output.push(p[0]);
    output.push(p[1]);
    output.push(p[2]);
    output.push(p[3]);
    assert(p@ =~= normalized_pixel(pixel@));
    assert(final(output)@ =~= old(output)@ + normalized_pixel(pixel@));
}


/// Pixel `(x, y)` comes before pixel `(x2, y2)` in row-major order.
proof fn lemma_row_major_before(width: int, y: int, x: int, y2: int, x2: int)
    requires
        0 <= x < width,
        0 <= x2,
        0 <= y < y2,
    ensures
        y * width + x < y2 * width + x2,
{
    assert(y * width + width <= y2 * width) by (nonlinear_arith)
        requires
            y < y2,
            width > 0,
    ;
}

/// A row that starts before the last row ends before the rows end.
proof fn lemma_row_in_rows(row: int, rows: int, stride: int, offset: int)
    requires
        0 <= row < rows,
        0 <= offset < stride,
    ensures
        0 <= row * stride,
        row * stride + offset < rows * stride,
{
    assert(0 <= row * stride) by (nonlinear_arith)
        requires
            0 <= row,
            0 <= stride,
    ;
    assert(row * stride + stride <= rows * stride) by (nonlinear_arith)
        requires
            row < rows,
            0 <= stride,
    ;
}

/// The absolute value of a row stride, in bytes.
pub open spec fn abs_stride(stride: i32) -> int {
    if stride < 0 {
        -stride
    } else {
        stride as int
    }
}

/// The source row of output row `y`: a negative stride stores the rows bottom-up.
pub open spec fn source_row(stride: i32, height: int, y: int) -> int {
    if stride < 0 {
        height - 1 - y
    } else {
        y
    }
}

/// Output pixel `(x, y)` of a normalized bitmap: the source pixel in RGBA order, with
/// the color of a fully transparent pixel cleared.
pub open spec fn canonical_pixel(
    format: VideoFormat,
    pixels: Seq<u8>,
    stride: i32,
    height: int,
    y: int,
    x: int,
) -> Seq<u8> {
    let start = source_row(stride, height, y) * abs_stride(stride) + x * 4;
    normalized_pixel(reorder_channels(format, pixels.subrange(start, start + 4))->0)
}

/// The normalized bitmap as a sequence: byte `i` is channel `i % 4` of pixel `i / 4`,
/// which lies in row `(i / 4) / width`.
pub open spec fn canonical_bitmap_of(
    format: VideoFormat,
    pixels: Seq<u8>,
    width: u32,
    height: u32,
    stride: i32,
) -> Seq<u8> {
    Seq::new(
        (height * width * 4) as nat,
        |i: int|
            canonical_pixel(
                format,
                pixels,
                stride,
                height as int,
                (i / 4) / (width as int),
                (i / 4) % (width as int),
            )[i % 4],
    )
}

/// Byte `i` of a tightly packed RGBA image is channel `i % 4` of pixel `i / 4`.
proof fn lemma_decompose_index(i: int, w: int, h: int)
    requires
        w > 0,
        h > 0,
        0 <= i < h * w * 4,
    ensures
        0 <= (i / 4) / w < h,
        0 <= (i / 4) % w < w,
        0 <= i % 4 < 4,
        i == byte_index(w, (i / 4) / w, (i / 4) % w, i % 4),
{
    let p = i / 4;
    assert(i == 4 * p + i % 4 && 0 <= i % 4 < 4);
    assert(0 <= p < h * w);
    vstd::arithmetic::div_mod::lemma_fundamental_div_mod(p, w);
    vstd::arithmetic::div_mod::lemma_mod_pos_bound(p, w);
    let y = p / w;
    let x = p % w;
    assert(0 <= y < h) by (nonlinear_arith)
        requires
            p == w * y + x,
            0 <= x < w,
            0 <= p < h * w,
            w > 0,
    ;
    assert(i == (y * w + x) * 4 + i % 4) by (nonlinear_arith)
        requires
            p == w * y + x,
            i == 4 * p + i % 4,
    ;
}

/// When a bitmap can be normalized: a non-empty image whose rows fit the stride, whose
/// sizes fit `usize`, whose bytes are all there, in a layout with alpha.
pub open spec fn canonical_bitmap_defined(
    format: VideoFormat,
    width: u32,
    height: u32,
    stride: i32,
    len: nat,
) -> bool {
    &&& width > 0 && height > 0
    &&& width * 4 <= usize::MAX
    &&& abs_stride(stride) >= width * 4
    &&& height * abs_stride(stride) <= usize::MAX
    &&& len >= height * abs_stride(stride)
    &&& supported_format(format)
}

/// The channels of `p` in RGBA order, when `format` allows it.
fn reorder(format: VideoFormat, p: [u8; 4]) -> (res: Option<[u8; 4]>)
    ensures
        res is Some <==> supported_format(format),
        res matches Some(q) ==> reorder_channels(format, p@) == Some(q@),
{
    let q = match format {
        VideoFormat::RGBA => [p[0], p[1], p[2], p[3]],
        VideoFormat::BGRA => [p[2], p[1], p[0], p[3]],
        VideoFormat::ARGB => [p[1], p[2], p[3], p[0]],
        VideoFormat::ABGR => [p[3], p[2], p[1], p[0]],
        _ => return None,
    };
    assert(reorder_channels(format, p@)->0 =~= q@);
    Some(q)
}

/// Normalizes a cursor bitmap into tightly packed RGBA rows, top row first, with the
/// color of fully transparent pixels cleared; `None` when the bitmap is empty, too
/// short for its stride, too large, or in a layout without alpha.
pub fn canonical_bitmap(format: VideoFormat, width: u32, height: u32, stride: i32, pixels: &[u8]) -> (res:
    Option<Vec<u8>>)
    ensures
        res is Some <==> canonical_bitmap_defined(format, width, height, stride, pixels@.len()),
        res matches Some(out) ==> {
            &&& out@ == canonical_bitmap_of(format, pixels@, width, height, stride)
            &&& out@.len() == height * width * 4
            &&& forall|y: int, x: int, c: int|
                0 <= y < height && 0 <= x < width && 0 <= c < 4 ==> #[trigger] out@[byte_index(
                    width as int,
                    y,
                    x,
                    c,
                )] == canonical_pixel(format, pixels@, stride, height as int, y, x)[c]
        },
{
    let w = width as usize;
    let h = height as usize;
    let row_bytes = match w.checked_mul(4) {
        Some(v) => v,
        None => return None,
    };
    let stride_bytes: usize = if stride < 0 {
        (0i64 - stride as i64) as usize
    } else {
        stride as usize
    };
    if w == 0 || h == 0 || stride_bytes < row_bytes {
        return None;
    }
    let required = match h.checked_mul(stride_bytes) {
        Some(v) => v,
        None => return None,
    };
    if pixels.len() < required {
        return None;
    }
    if reorder(format, [0, 0, 0, 0]).is_none() {
        return None;
    }
    assert(h * row_bytes <= h * stride_bytes) by (nonlinear_arith)
        requires
            row_bytes <= stride_bytes,
    ;
    let mut rgba: Vec<u8> = Vec::with_capacity(h * row_bytes);
    let ghost sp = pixels@;
    let mut output_y: usize = 0;
    while output_y < h
        invariant
            w == width,
            h == height,
            w > 0,
            row_bytes == w * 4,
            stride_bytes == abs_stride(stride),
            stride_bytes >= row_bytes,
            h * stride_bytes <= pixels@.len(),
            h * stride_bytes <= usize::MAX,
            sp == pixels@,
            supported_format(format),
            output_y <= h,
            rgba@.len() == output_y * w * 4,
            forall|y: int, x: int, c: int|
                0 <= y < output_y && 0 <= x < w && 0 <= c < 4 ==> #[trigger] rgba@[byte_index(
                    w as int,
                    y,
                    x,
                    c,
                )] == canonical_pixel(format, sp, stride, h as int, y, x)[c],
        decreases h - output_y,
    {
        let source_y = if stride < 0 {
            h - 1 - output_y
        } else {
            output_y
        };
        proof {
            lemma_row_in_rows(source_y as int, h as int, stride_bytes as int, 0);
        }
        let row_start = source_y * stride_bytes;
        let mut x: usize = 0;
        while x < w
            invariant
                w == width,
                h == height,
                w > 0,
                row_bytes == w * 4,
                stride_bytes == abs_stride(stride),
                stride_bytes >= row_bytes,
                h * stride_bytes <= pixels@.len(),
                h * stride_bytes <= usize::MAX,
                sp == pixels@,
                supported_format(format),
                output_y < h,
                source_y == source_row(stride, h as int, output_y as int),
                source_y < h,
                row_start == source_y * stride_bytes,
                x <= w,
                rgba@.len() == (output_y * w + x) * 4,
                forall|y: int, x2: int, c: int|
                    (0 <= y < output_y && 0 <= x2 < w || y == output_y && 0 <= x2 < x) && 0 <= c
                        < 4 ==> #[trigger] rgba@[byte_index(w as int, y, x2, c)] == canonical_pixel(
                        format,
                        sp,
                        stride,
                        h as int,
                        y,
                        x2,
                    )[c],
            decreases w - x,
        {
            proof {
                lemma_row_in_rows(source_y as int, h as int, stride_bytes as int, x * 4 + 3);
            }
            let base = row_start + x * 4;
            let p = [pixels[base], pixels[base + 1], pixels[base + 2], pixels[base + 3]];
            assert(p@ =~= sp.subrange(base as int, base + 4));
            let q = match reorder(format, p) {
                Some(q) => q,
                None => return None,
            };
            let ghost before = rgba@;
            push_normalized_pixel(&mut rgba, q);
            proof {
                assert forall|y: int, x2: int, c: int|
                    (0 <= y < output_y && 0 <= x2 < w || y == output_y && 0 <= x2 < x + 1) && 0
                        <= c < 4 implies #[trigger] rgba@[byte_index(w as int, y, x2, c)]
                    == canonical_pixel(format, sp, stride, h as int, y, x2)[c] by {
                    if y == output_y && x2 == x {
                        assert(byte_index(w as int, y, x2, c) == before.len() + c);
                    } else {
                        if y < output_y {
                            lemma_row_major_before(w as int, y, x2, output_y as int, x as int);
                        }
                        assert(byte_index(w as int, y, x2, c) < before.len());
                    }
                }
            }
            x = x + 1;
        }
        proof {
            assert((output_y * w + w) * 4 == (output_y + 1) * w * 4) by (nonlinear_arith);
        }
        output_y = output_y + 1;
    }
    proof {
        assert(rgba@.len() == height * width * 4) by (nonlinear_arith)
            requires
                rgba@.len() == h * w * 4,
                h == height,
                w == width,
        ;
        assert forall|i: int| 0 <= i < rgba@.len() implies rgba@[i] == canonical_bitmap_of(
            format,
            pixels@,
            width,
            height,
            stride,
        )[i] by {
            lemma_decompose_index(i, w as int, h as int);
            let y = (i / 4) / (w as int);
            let x = (i / 4) % (w as int);
            let c = i % 4;
            assert(rgba@[byte_index(w as int, y, x, c)] == canonical_pixel(
                format,
                sp,
                stride,
                h as int,
                y,
                x,
            )[c]);
        }
        assert(rgba@ =~= canonical_bitmap_of(format, pixels@, width, height, stride));
    }
    Some(rgba)
}


/// Index of channel `c` of the `i`-th four-byte pixel.
pub open spec fn chunk_index(i: int, c: int) -> int {
    i * 4 + c
}

/// The RGBA bytes of Xcursor pixels stored in BGRA order, as a sequence: whole pixels
/// only, each normalized.
pub open spec fn xcursor_rgba(pixels: Seq<u8>) -> Seq<u8> {
    Seq::new(
        (pixels.len() / 4 * 4) as nat,
        |i: int|
            normalized_pixel(
                reorder_channels(
                    VideoFormat::BGRA,
                    pixels.subrange((i / 4) * 4, (i / 4) * 4 + 4),
                )->0,
            )[i % 4],
    )
}

/// Converts the pixels of an Xcursor image, stored in BGRA order, into RGBA with the
/// color of fully transparent pixels cleared; trailing bytes that do not form a
/// whole pixel are dropped.
pub fn xcursor_pixels_to_rgba(pixels: &[u8]) -> (res: Vec<u8>)
    ensures
        res@ == xcursor_rgba(pixels@),
        res@.len() == pixels@.len() / 4 * 4,
        forall|i: int, c: int|
            0 <= i < pixels@.len() / 4 && 0 <= c < 4 ==> #[trigger] res@[chunk_index(i, c)]
                == normalized_pixel(
                reorder_channels(VideoFormat::BGRA, pixels@.subrange(i * 4, i * 4 + 4))->0,
            )[c],
{
    let n = pixels.len() / 4;
    let mut rgba: Vec<u8> = Vec::with_capacity(pixels.len());
    let mut i: usize = 0;
    while i < n
        invariant
            n == pixels@.len() / 4,
            pixels@.len() <= usize::MAX,
            i <= n,
            rgba@.len() == i * 4,
            forall|j: int, c: int|
                0 <= j < i && 0 <= c < 4 ==> #[trigger] rgba@[chunk_index(j, c)]
                    == normalized_pixel(
                    reorder_channels(VideoFormat::BGRA, pixels@.subrange(j * 4, j * 4 + 4))->0,
                )[c],
        decreases n - i,
    {
        let base = i * 4;
        let p = [pixels[base + 2], pixels[base + 1], pixels[base], pixels[base + 3]];
        assert(p@ =~= reorder_channels(
            VideoFormat::BGRA,
            pixels@.subrange(base as int, base + 4),
        )->0);
        let ghost before = rgba@;
        push_normalized_pixel(&mut rgba, p);
        assert forall|j: int, c: int| 0 <= j < i + 1 && 0 <= c < 4 implies #[trigger] rgba@[chunk_index(j, c)]
            == normalized_pixel(
            reorder_channels(VideoFormat::BGRA, pixels@.subrange(j * 4, j * 4 + 4))->0,
        )[c] by {
            if j < i {
                assert(chunk_index(j, c) < before.len());
            } else {
                assert(chunk_index(j, c) == before.len() + c);
            }
        }
        i = i + 1;
    }
    assert forall|k: int| 0 <= k < rgba@.len() implies rgba@[k] == xcursor_rgba(pixels@)[k] by {
        assert(k == chunk_index(k / 4, k % 4));
    }
    assert(rgba@ =~= xcursor_rgba(pixels@));
    rgba
}

/// The source coordinate sampled for signature coordinate `i` along an axis of `extent`
/// pixels: the pixel under the middle of the `i`-th of `SIGNATURE_SIDE` equal parts.
pub open spec fn sample_coordinate(i: int, extent: int) -> int {
    let s = (i * extent + extent / 2) / (SIGNATURE_SIDE as int);
    if s < extent - 1 {
        s
    } else {
        extent - 1
    }
}

/// When an RGBA image has a signature: it is not empty and holds exactly its pixels,
/// whose bytes can be counted in a `usize`.
pub open spec fn image_signature_defined(len: nat, width: u32, height: u32) -> bool {
    width > 0 && height > 0 && len == width * height * 4 && len <= usize::MAX
}

/// The signature pixel `(x, y)` of an RGBA image.
pub open spec fn signature_byte(pixels: Seq<u8>, width: u32, height: u32, y: int, x: int, c: int) -> u8 {
    pixels[byte_index(
        width as int,
        sample_coordinate(y, height as int),
        sample_coordinate(x, width as int),
        c,
    )]
}

fn sample_index(i: usize, extent: u32) -> (res: usize)
    requires
        i < SIGNATURE_SIDE,
        extent > 0,
    ensures
        res == sample_coordinate(i as int, extent as int),
        res < extent,
{
    let e = extent as u64;
    assert(i * e <= 23 * e) by (nonlinear_arith)
        requires
            i <= 23,
    ;
    let s = (i as u64 * e + e / 2) / (SIGNATURE_SIDE as u64);
    if s < e - 1 {
        s as usize
    } else {
        (e - 1) as usize
    }
}

/// The signature of an RGBA image as a sequence: `SIGNATURE_SIDE` rows of
/// `SIGNATURE_SIDE` RGBA pixels, each the source pixel under its center.
pub open spec fn signature_of(pixels: Seq<u8>, width: u32, height: u32) -> Seq<u8> {
    Seq::new(
        SIGNATURE_LEN as nat,
        |i: int| signature_byte(pixels, width, height, i / 96, (i % 96) / 4, i % 4),
    )
}

/// Downsamples a tightly packed RGBA image to `SIGNATURE_SIDE` by `SIGNATURE_SIDE`
/// pixels, taking for each the source pixel under its center; `None` when the image
/// is empty or its bytes do not match its size.
pub fn image_signature(pixels: &[u8], width: u32, height: u32) -> (res: Option<Vec<u8>>)
    ensures
        res is Some <==> image_signature_defined(pixels@.len(), width, height),
        res matches Some(sig) ==> {
            &&& sig@ == signature_of(pixels@, width, height)
            &&& sig@.len() == SIGNATURE_LEN
            &&& forall|y: int, x: int, c: int|
                0 <= y < SIGNATURE_SIDE && 0 <= x < SIGNATURE_SIDE && 0 <= c < 4
                    ==> #[trigger] sig@[byte_index(SIGNATURE_SIDE as int, y, x, c)]
                    == signature_byte(pixels@, width, height, y, x, c)
        },
{
    let pixel_bytes = pixels.len();
    let w = width as usize;
    let h = height as usize;
    if w == 0 || h == 0 {
        return None;
    }
    let area = match w.checked_mul(h) {
        Some(v) => v,
        None => {
            assert(width * height * 4 > usize::MAX) by (nonlinear_arith)
                requires
                    w * h > usize::MAX,
                    w == width,
                    h == height,
            ;
            return None;
        },
    };
    let len = match area.checked_mul(4) {
        Some(v) => v,
        None => {
            assert(width * height * 4 > usize::MAX) by (nonlinear_arith)
                requires
                    area * 4 > usize::MAX,
                    area == w * h,
                    w == width,
                    h == height,
            ;
            return None;
        },
    };
    if pixel_bytes != len {
        assert(!image_signature_defined(pixels@.len(), width, height)) by {
            assert(width * height * 4 == area * 4) by (nonlinear_arith)
                requires
                    area == w * h,
                    w == width,
                    h == height,
            ;
        }
        return None;
    }
    assert(width * height * 4 == area * 4) by (nonlinear_arith)
        requires
            area == w * h,
            w == width,
            h == height,
    ;
    let mut signature: Vec<u8> = Vec::with_capacity(SIGNATURE_LEN);
    let mut y: usize = 0;
    while y < SIGNATURE_SIDE
        invariant
            w == width,
            h == height,
            w > 0,
            h > 0,
            area == w * h,
            pixels@.len() == area * 4,
            pixels@.len() <= usize::MAX,
            y <= SIGNATURE_SIDE,
            signature@.len() == y * SIGNATURE_SIDE * 4,
            forall|y2: int, x2: int, c: int|
                0 <= y2 < y && 0 <= x2 < SIGNATURE_SIDE && 0 <= c < 4 ==> #[trigger] signature@[byte_index(
                    SIGNATURE_SIDE as int,
                    y2,
                    x2,
                    c,
                )] == signature_byte(pixels@, width, height, y2, x2, c),
        decreases SIGNATURE_SIDE - y,
    {
        let source_y = sample_index(y, height);
        let mut x: usize = 0;
        while x < SIGNATURE_SIDE
            invariant
                w == width,
                h == height,
                w > 0,
                h > 0,
                area == w * h,
                pixels@.len() == area * 4,
                pixels@.len() <= usize::MAX,
                y < SIGNATURE_SIDE,
                source_y == sample_coordinate(y as int, height as int),
                source_y < h,
                x <= SIGNATURE_SIDE,
                signature@.len() == (y * SIGNATURE_SIDE + x) * 4,
                forall|y2: int, x2: int, c: int|
                    (0 <= y2 < y && 0 <= x2 < SIGNATURE_SIDE || y2 == y && 0 <= x2 < x) && 0 <= c
                        < 4 ==> #[trigger] signature@[byte_index(SIGNATURE_SIDE as int, y2, x2, c)]
                        == signature_byte(pixels@, width, height, y2, x2, c),
            decreases SIGNATURE_SIDE - x,
        {
            let source_x = sample_index(x, width);
            proof {
                lemma_row_in_rows(source_y as int, h as int, w as int, source_x as int);
                assert(h * w == area) by (nonlinear_arith)
                    requires
                        area == w * h,
                ;
            }
            let offset = (source_y * w + source_x) * 4;
            let ghost before = signature@;
            signature.push(pixels[offset]);
            signature.push(pixels[offset + 1]);
            signature.push(pixels[offset + 2]);
            signature.push(pixels[offset + 3]);
            proof {
                assert forall|y2: int, x2: int, c: int|
                    (0 <= y2 < y && 0 <= x2 < SIGNATURE_SIDE || y2 == y && 0 <= x2 < x + 1) && 0
                        <= c < 4 implies #[trigger] signature@[byte_index(
                    SIGNATURE_SIDE as int,
                    y2,
                    x2,
                    c,
                )] == signature_byte(pixels@, width, height, y2, x2, c) by {
                    if y2 == y && x2 == x {
                        assert(byte_index(SIGNATURE_SIDE as int, y2, x2, c) == before.len() + c);
                    } else {
                        assert(byte_index(SIGNATURE_SIDE as int, y2, x2, c) < before.len());
                    }
                }
            }
            x = x + 1;
        }
        y = y + 1;
    }
    assert forall|i: int| 0 <= i < SIGNATURE_LEN implies signature@[i] == signature_of(
        pixels@,
        width,
        height,
    )[i] by {
        assert(i == byte_index(SIGNATURE_SIDE as int, i / 96, (i % 96) / 4, i % 4));
    }
    assert(signature@ =~= signature_of(pixels@, width, height));
    Some(signature)
}


/// In a normalized bitmap a fully transparent pixel has no color.
pub proof fn lemma_transparent_pixels_are_cleared(
    format: VideoFormat,
    pixels: Seq<u8>,
    stride: i32,
    height: int,
    y: int,
    x: int,
)
    requires
        supported_format(format),
        canonical_pixel(format, pixels, stride, height, y, x)[3] == 0,
    ensures
        canonical_pixel(format, pixels, stride, height, y, x) == seq![0u8, 0u8, 0u8, 0u8],
{
}

/// Byte `c` of pixel `(x, y)` of a tightly packed RGBA image is read back as channel
/// `c` of pixel `(x, y)`.
proof fn lemma_byte_index_decomposes(w: int, y: int, x: int, c: int)
    requires
        0 <= x < w,
        0 <= y,
        0 <= c < 4,
    ensures
        byte_index(w, y, x, c) / 4 == y * w + x,
        byte_index(w, y, x, c) % 4 == c,
        (byte_index(w, y, x, c) / 4) / w == y,
        (byte_index(w, y, x, c) / 4) % w == x,
{
    let i = byte_index(w, y, x, c);
    assert(i == (y * w + x) * 4 + c);
    vstd::arithmetic::div_mod::lemma_fundamental_div_mod_converse(i, 4, y * w + x, c);
    assert(y * w + x == y * w + x);
    vstd::arithmetic::div_mod::lemma_fundamental_div_mod_converse(y * w + x, w, y, x);
}

/// Normalization reads each pixel's channels where its layout names them and writes
/// them in RGBA order: pixel `(x, y)` of the result is the source pixel at `x * 4` in
/// its row (the rows of a negative stride counted from the bottom), whose bytes are
/// red, green, blue, alpha for `RGBA`; blue, green, red, alpha for `BGRA`; alpha, red,
/// green, blue for `ARGB`; and alpha, blue, green, red for `ABGR`. A pixel whose alpha
/// is zero comes out as four zero bytes.
pub proof fn lemma_normalized_channels(
    format: VideoFormat,
    pixels: Seq<u8>,
    width: u32,
    height: u32,
    stride: i32,
    x: int,
    y: int,
)
    requires
        canonical_bitmap_defined(format, width, height, stride, pixels.len()),
        0 <= x < width,
        0 <= y < height,
    ensures
        ({
            let out = canonical_bitmap_of(format, pixels, width, height, stride);
            let row = if stride < 0 { height - 1 - y } else { y };
            let s = row * (if stride < 0 { -stride } else { stride as int }) + x * 4;
            let (r, g, b, a) = match format {
                VideoFormat::RGBA => (pixels[s], pixels[s + 1], pixels[s + 2], pixels[s + 3]),
                VideoFormat::BGRA => (pixels[s + 2], pixels[s + 1], pixels[s], pixels[s + 3]),
                VideoFormat::ARGB => (pixels[s + 1], pixels[s + 2], pixels[s + 3], pixels[s]),
                _ => (pixels[s + 3], pixels[s + 2], pixels[s + 1], pixels[s]),
            };
            let k = (y * width + x) * 4;
            &&& out[k + 3] == a
            &&& out[k] == if a == 0 { 0 } else { r }
            &&& out[k + 1] == if a == 0 { 0 } else { g }
            &&& out[k + 2] == if a == 0 { 0 } else { b }
        }),
{
    let w = width as int;
    let h = height as int;
    assert(y * w + x < h * w) by (nonlinear_arith)
        requires
            0 <= x < w,
            0 <= y < h,
    ;
    lemma_byte_index_decomposes(w, y, x, 0);
    lemma_byte_index_decomposes(w, y, x, 1);
    lemma_byte_index_decomposes(w, y, x, 2);
    lemma_byte_index_decomposes(w, y, x, 3);
    let row = source_row(stride, h, y);
    lemma_row_in_rows(row, h, abs_stride(stride), x * 4 + 3);
    let start = row * abs_stride(stride) + x * 4;
    assert(start + 4 <= pixels.len()) by (nonlinear_arith)
        requires
            row * abs_stride(stride) + x * 4 + 3 < h * abs_stride(stride),
            start == row * abs_stride(stride) + x * 4,
            h * abs_stride(stride) <= pixels.len(),
    ;
    assert(0 <= start);
}

/// Normalizing a tightly packed `RGBA` bitmap without fully transparent pixels gives
/// the bitmap back unchanged.
pub proof fn lemma_opaque_rgba_is_unchanged(pixels: Seq<u8>, width: u32, height: u32)
    requires
        width > 0,
        height > 0,
        width * 4 <= i32::MAX,
        pixels.len() == height * width * 4,
        pixels.len() <= usize::MAX,
        forall|k: int| 0 <= k < height * width ==> #[trigger] pixels[k * 4 + 3] != 0,
    ensures
        canonical_bitmap_of(VideoFormat::RGBA, pixels, width, height, (width * 4) as i32) == pixels,
{
    let w = width as int;
    let h = height as int;
    let stride = (width * 4) as i32;
    let out = canonical_bitmap_of(VideoFormat::RGBA, pixels, width, height, stride);
    assert(pixels.len() == h * (w * 4)) by (nonlinear_arith)
        requires
            pixels.len() == h * w * 4,
    ;
    assert(canonical_bitmap_defined(VideoFormat::RGBA, width, height, stride, pixels.len()));
    assert forall|i: int| 0 <= i < pixels.len() implies out[i] == pixels[i] by {
        lemma_decompose_index(i, w, h);
        let y = (i / 4) / w;
        let x = (i / 4) % w;
        let c = i % 4;
        lemma_normalized_channels(VideoFormat::RGBA, pixels, width, height, stride, x, y);
        let k = y * w + x;
        assert(0 <= k < h * w) by (nonlinear_arith)
            requires
                0 <= x < w,
                0 <= y < h,
                k == y * w + x,
        ;
        assert(y * (w * 4) + x * 4 == k * 4) by (nonlinear_arith)
            requires
                k == y * w + x,
        ;
        assert(pixels[k * 4 + 3] != 0);
        assert(i == k * 4 + c);
    }
    assert(out =~= pixels);
}

} // verus!
