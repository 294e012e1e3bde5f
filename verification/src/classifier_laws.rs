//! Laws of cursor classification, stated over the specifications of `match_pixels`
//! and `classify`.
use vstd::prelude::*;

use crate::bitmap::{image_signature_defined, signature_of, VideoFormat, SIGNATURE_LEN};
use crate::classifier::{
    abs_diff, beats, byte_difference, candidate_area, candidate_score, classify_outcome, is_winner,
    lemma_margin_transfer, lemma_ratio_le_trans, lemma_threshold_transfer, lemma_valid_area,
    lemma_winner_matches_lowest, scaled_score, scores_lowest, spec_match_pixels, ThemeCursor,
    IMAGE_DISTANCE_SCALE,
};
use crate::cursor::{CursorKind, Hotspot};

verus! {

/// Every candidate keeps the bounds of theme images.
pub open spec fn all_valid(cands: Seq<ThemeCursor>) -> bool {
    forall|j: int| 0 <= j < cands.len() ==> (#[trigger] cands[j]).valid()
}

proof fn lemma_areas_positive(cands: Seq<ThemeCursor>)
    requires
        all_valid(cands),
    ensures
        forall|j: int| 0 <= j < cands.len() ==> candidate_area(#[trigger] cands[j]) > 0,
{
    assert forall|j: int| 0 <= j < cands.len() implies candidate_area(#[trigger] cands[j]) > 0 by {
        lemma_valid_area(cands[j]);
    }
}

/// A classified shape keeps its kind: classifying the same shape id again reports the
/// kind found the first time and leaves the cache as it was, whatever bitmap comes
/// with the second call.
pub proof fn lemma_repeat_classify_is_stable(
    cands: Seq<ThemeCursor>,
    cache: Map<u64, CursorKind>,
    shape_id: u64,
    format: VideoFormat,
    width: u32,
    height: u32,
    stride: i32,
    pixels: Seq<u8>,
    hotspot: Hotspot,
    format2: VideoFormat,
    width2: u32,
    height2: u32,
    stride2: i32,
    pixels2: Seq<u8>,
    hotspot2: Hotspot,
)
    ensures
        ({
            let first = classify_outcome(
                cands,
                cache,
                shape_id,
                format,
                width,
                height,
                stride,
                pixels,
                hotspot,
            );
            let second = classify_outcome(
                cands,
                first.1,
                shape_id,
                format2,
                width2,
                height2,
                stride2,
                pixels2,
                hotspot2,
            );
            second.0 == first.0 && second.1 == first.1
        }),
{
}

/// A winning candidate scores lowest of all candidates.
pub proof fn lemma_winner_scores_lowest(
    cands: Seq<ThemeCursor>,
    query: Seq<u8>,
    width: u32,
    height: u32,
    hotspot: Hotspot,
    i: int,
)
    requires
        all_valid(cands),
        width * height > 0,
        is_winner(cands, query, width, height, hotspot, i),
    ensures
        scores_lowest(cands, query, width, height, hotspot, i),
{
    lemma_areas_positive(cands);
    let ti = candidate_score(cands[i], query, width, height, hotspot);
    let ci = candidate_area(cands[i]);
    assert forall|j: int| 0 <= j < cands.len() implies ti * candidate_area(#[trigger] cands[j])
        <= candidate_score(cands[j], query, width, height, hotspot) * ci by {
        assert(crate::classifier::beats(cands, query, width, height, hotspot, i, j));
        let tj = candidate_score(cands[j], query, width, height, hotspot);
        let cj = candidate_area(cands[j]);
        if cands[j].spec_kind() != cands[i].spec_kind() {
            let k = crate::classifier::IMAGE_DISTANCE_SCALE * (width * height);
            assert(k * cj * ci > 0) by (nonlinear_arith)
                requires
                    k > 0,
                    cj > 0,
                    ci > 0,
            ;
            assert(50 * tj * ci == 50 * (tj * ci) && 50 * ti * cj == 50 * (ti * cj))
                by (nonlinear_arith);
        }
    }
}

/// All winners are of one kind, so the classification names a single kind.
pub proof fn lemma_winners_share_kind(
    cands: Seq<ThemeCursor>,
    query: Seq<u8>,
    width: u32,
    height: u32,
    hotspot: Hotspot,
    i: int,
    j: int,
)
    requires
        all_valid(cands),
        width * height > 0,
        is_winner(cands, query, width, height, hotspot, i),
        is_winner(cands, query, width, height, hotspot, j),
    ensures
        cands[i].spec_kind() == cands[j].spec_kind(),
{
    lemma_winner_scores_lowest(cands, query, width, height, hotspot, i);
    lemma_winner_matches_lowest(cands, query, width, height, hotspot, i, j);
}

/// Two lowest-scoring candidates of different kinds make the bitmap unmatched: a
/// tie between kinds is ambiguous.
pub proof fn lemma_tie_between_kinds_is_unmatched(
    cands: Seq<ThemeCursor>,
    width: u32,
    height: u32,
    hotspot: Hotspot,
    pixels: Seq<u8>,
    i: int,
    j: int,
)
    requires
        all_valid(cands),
        width * height > 0,
        scores_lowest(cands, signature_of(pixels, width, height), width, height, hotspot, i),
        scores_lowest(cands, signature_of(pixels, width, height), width, height, hotspot, j),
        cands[i].spec_kind() != cands[j].spec_kind(),
    ensures
        spec_match_pixels(cands, width, height, hotspot, pixels) is None,
{
    let q = signature_of(pixels, width, height);
    assert forall|w: int| !is_winner(cands, q, width, height, hotspot, w) by {
        if is_winner(cands, q, width, height, hotspot, w) {
            lemma_winner_matches_lowest(cands, q, width, height, hotspot, i, w);
            lemma_winner_matches_lowest(cands, q, width, height, hotspot, j, w);
        }
    }
}

/// Without candidates nothing is matched.
pub proof fn lemma_no_candidates_is_unmatched(
    width: u32,
    height: u32,
    hotspot: Hotspot,
    pixels: Seq<u8>,
)
    ensures
        spec_match_pixels(Seq::<ThemeCursor>::empty(), width, height, hotspot, pixels) is None,
{
}

/// Scores are never negative.
pub proof fn lemma_score_nonnegative(
    c: ThemeCursor,
    query: Seq<u8>,
    width: u32,
    height: u32,
    hotspot: Hotspot,
)
    requires
        c.valid(),
    ensures
        candidate_score(c, query, width, height, hotspot) >= 0,
{
    lemma_byte_difference_nonnegative(query, c.spec_signature(), crate::bitmap::SIGNATURE_LEN as nat);
    let d = crate::classifier::byte_difference(
        query,
        c.spec_signature(),
        crate::bitmap::SIGNATURE_LEN as nat,
    );
    let aw = width as int;
    let ah = height as int;
    let bw = c.spec_width() as int;
    let bh = c.spec_height() as int;
    let nx = abs_diff(hotspot.x * bw, c.spec_hotspot().x * aw);
    let ny = abs_diff(hotspot.y * bh, c.spec_hotspot().y * ah);
    assert(scaled_score(d, aw, ah, hotspot.x as int, hotspot.y as int, bw, bh, c.spec_hotspot().x as int, c.spec_hotspot().y as int) >= 0) by (nonlinear_arith)
        requires
            d >= 0,
            aw >= 0,
            ah >= 0,
            bw >= 0,
            bh >= 0,
            nx >= 0,
            ny >= 0,
            nx == abs_diff(hotspot.x * bw, c.spec_hotspot().x * aw),
            ny == abs_diff(hotspot.y * bh, c.spec_hotspot().y * ah),
    ;
}

proof fn lemma_byte_difference_nonnegative(a: Seq<u8>, b: Seq<u8>, n: nat)
    ensures
        crate::classifier::byte_difference(a, b, n) >= 0,
    decreases n,
{
    if n > 0 {
        lemma_byte_difference_nonnegative(a, b, (n - 1) as nat);
    }
}

/// When every candidate is of one kind and one of them matches the bitmap exactly
/// (same signature, same relative hotspot), the bitmap is classified as that kind.
pub proof fn lemma_exact_match_of_one_kind(
    cands: Seq<ThemeCursor>,
    width: u32,
    height: u32,
    hotspot: Hotspot,
    pixels: Seq<u8>,
    kind: CursorKind,
    i: int,
)
    requires
        all_valid(cands),
        image_signature_defined(pixels.len(), width, height),
        forall|j: int| 0 <= j < cands.len() ==> (#[trigger] cands[j]).spec_kind() == kind,
        0 <= i < cands.len(),
        candidate_score(cands[i], signature_of(pixels, width, height), width, height, hotspot)
            == 0,
    ensures
        spec_match_pixels(cands, width, height, hotspot, pixels) == Some(kind),
{
    let q = signature_of(pixels, width, height);
    lemma_areas_positive(cands);
    assert(width * height > 0) by (nonlinear_arith)
        requires
            width > 0,
            height > 0,
    ;
    assert forall|j: int| 0 <= j < cands.len() implies #[trigger] crate::classifier::beats(
        cands,
        q,
        width,
        height,
        hotspot,
        i,
        j,
    ) by {
        lemma_score_nonnegative(cands[j], q, width, height, hotspot);
        let tj = candidate_score(cands[j], q, width, height, hotspot);
        let ci = candidate_area(cands[i]);
        assert(0 <= tj * ci) by (nonlinear_arith)
            requires
                tj >= 0,
                ci > 0,
        ;
    }
    let m = 9 * crate::classifier::IMAGE_DISTANCE_SCALE * (width * height);
    assert(0 <= m * candidate_area(cands[i])) by (nonlinear_arith)
        requires
            m >= 0,
            candidate_area(cands[i]) > 0,
    ;
    assert(is_winner(cands, q, width, height, hotspot, i));
    let w = choose|w: int| is_winner(cands, q, width, height, hotspot, w);
    assert(0 <= w < cands.len());
}

/// A score at most that of another candidate keeps at least its margin to a third:
/// with `ti/ci <= t2/c2`, a margin of `ti/ci` over `tw/cw` is one of `t2/c2` too.
proof fn lemma_margin_monotone(tw: int, cw: int, ti: int, ci: int, t2: int, c2: int, k: int)
    requires
        cw > 0,
        ci > 0,
        c2 > 0,
        50 * ti * cw >= 50 * tw * ci + k * ci * cw,
        ti * c2 <= t2 * ci,
    ensures
        50 * t2 * cw >= 50 * tw * c2 + k * c2 * cw,
{
    assert(50 * ti * cw * c2 >= 50 * tw * ci * c2 + k * ci * cw * c2) by (nonlinear_arith)
        requires
            50 * ti * cw >= 50 * tw * ci + k * ci * cw,
            c2 > 0,
    ;
    assert(50 * ti * c2 * cw <= 50 * t2 * ci * cw) by (nonlinear_arith)
        requires
            ti * c2 <= t2 * ci,
            cw > 0,
    ;
    assert(ci * (50 * t2 * cw) >= ci * (50 * tw * c2 + k * c2 * cw)) by (nonlinear_arith)
        requires
            50 * ti * cw * c2 >= 50 * tw * ci * c2 + k * ci * cw * c2,
            50 * ti * c2 * cw <= 50 * t2 * ci * cw,
    ;
    assert(50 * t2 * cw >= 50 * tw * c2 + k * c2 * cw) by (nonlinear_arith)
        requires
            ci * (50 * t2 * cw) >= ci * (50 * tw * c2 + k * c2 * cw),
            ci > 0,
    ;
}

/// Adding a theme image that is of the kind of a candidate and scores no lower than it
/// leaves the classification of a bitmap as it was: scores are compared kind by kind,
/// so such an image can neither win where that candidate would not, nor make a
/// match ambiguous.
pub proof fn lemma_same_kind_extra_candidate_keeps_match(
    cands: Seq<ThemeCursor>,
    extra: ThemeCursor,
    i: int,
    width: u32,
    height: u32,
    hotspot: Hotspot,
    pixels: Seq<u8>,
)
    requires
        all_valid(cands),
        extra.valid(),
        0 <= i < cands.len(),
        extra.spec_kind() == cands[i].spec_kind(),
        ({
            let q = signature_of(pixels, width, height);
            candidate_score(cands[i], q, width, height, hotspot) * candidate_area(extra)
                <= candidate_score(extra, q, width, height, hotspot) * candidate_area(cands[i])
        }),
    ensures
        spec_match_pixels(cands.push(extra), width, height, hotspot, pixels) == spec_match_pixels(
            cands,
            width,
            height,
            hotspot,
            pixels,
        ),
{
    if !image_signature_defined(pixels.len(), width, height) {
        return;
    }
    let q = signature_of(pixels, width, height);
    let more = cands.push(extra);
    let n = cands.len() as int;
    assert(width * height > 0) by (nonlinear_arith)
        requires
            width > 0,
            height > 0,
    ;
    assert(more[n] == extra);
    assert forall|j: int| 0 <= j < n implies #[trigger] more[j] == cands[j] by {}
    assert(all_valid(more)) by {
        assert forall|j: int| 0 <= j < more.len() implies (#[trigger] more[j]).valid() by {
            if j < n {
                assert(more[j] == cands[j]);
            }
        }
    }
    lemma_areas_positive(cands);
    lemma_valid_area(extra);
    let k = IMAGE_DISTANCE_SCALE * (width * height);
    let ti = candidate_score(cands[i], q, width, height, hotspot);
    let ci = candidate_area(cands[i]);
    let t2 = candidate_score(extra, q, width, height, hotspot);
    let c2 = candidate_area(extra);
    // A winner among the candidates still wins with the extra image.
    assert forall|w: int| is_winner(cands, q, width, height, hotspot, w) implies is_winner(
        more,
        q,
        width,
        height,
        hotspot,
        w,
    ) by {
        assert(more[w] == cands[w]);
        assert forall|j: int| 0 <= j < more.len() implies #[trigger] beats(
            more,
            q,
            width,
            height,
            hotspot,
            w,
            j,
        ) by {
            if j < n {
                assert(more[j] == cands[j]);
                assert(beats(cands, q, width, height, hotspot, w, j));
            } else {
                assert(beats(cands, q, width, height, hotspot, w, i));
                let tw = candidate_score(cands[w], q, width, height, hotspot);
                let cw = candidate_area(cands[w]);
                if cands[w].spec_kind() == extra.spec_kind() {
                    lemma_ratio_le_trans(tw, cw, ti, ci, t2, c2);
                } else {
                    lemma_margin_monotone(tw, cw, ti, ci, t2, c2, k);
                }
            }
        }
    }
    // A winner with the extra image that is one of the candidates wins among them.
    assert forall|w: int| 0 <= w < n && is_winner(more, q, width, height, hotspot, w) implies is_winner(
        cands,
        q,
        width,
        height,
        hotspot,
        w,
    ) by {
        assert(more[w] == cands[w]);
        assert forall|j: int| 0 <= j < cands.len() implies #[trigger] beats(
            cands,
            q,
            width,
            height,
            hotspot,
            w,
            j,
        ) by {
            assert(more[j] == cands[j]);
            assert(beats(more, q, width, height, hotspot, w, j));
        }
    }
    // When the extra image wins, the candidate of its kind that it does not beat wins too.
    if is_winner(more, q, width, height, hotspot, n) {
        assert(beats(more, q, width, height, hotspot, n, i));
        assert(more[i] == cands[i]);
        assert(ti * c2 == t2 * ci);
        lemma_threshold_transfer(t2, c2, ti, ci, 9 * IMAGE_DISTANCE_SCALE * (width * height));
        assert forall|j: int| 0 <= j < cands.len() implies #[trigger] beats(
            cands,
            q,
            width,
            height,
            hotspot,
            i,
            j,
        ) by {
            assert(more[j] == cands[j]);
            assert(beats(more, q, width, height, hotspot, n, j));
            let tj = candidate_score(cands[j], q, width, height, hotspot);
            let cj = candidate_area(cands[j]);
            if cands[j].spec_kind() == extra.spec_kind() {
                lemma_ratio_le_trans(ti, ci, t2, c2, tj, cj);
            } else {
                lemma_margin_transfer(t2, c2, ti, ci, tj, cj, k);
            }
        }
        assert(is_winner(cands, q, width, height, hotspot, i));
    }
    if exists|w: int| is_winner(cands, q, width, height, hotspot, w) {
        let w = choose|w: int| is_winner(cands, q, width, height, hotspot, w);
        assert(is_winner(more, q, width, height, hotspot, w));
        let wm = choose|w: int| is_winner(more, q, width, height, hotspot, w);
        lemma_winners_share_kind(more, q, width, height, hotspot, w, wm);
        assert(more[w] == cands[w]);
    } else {
        assert forall|w: int| !is_winner(more, q, width, height, hotspot, w) by {
            if is_winner(more, q, width, height, hotspot, w) {
                if w < n {
                    assert(is_winner(cands, q, width, height, hotspot, w));
                } else {
                    assert(is_winner(cands, q, width, height, hotspot, i));
                }
            }
        }
    }
}

/// The byte difference of two signatures does not depend on their order.
pub proof fn lemma_byte_difference_symmetric(a: Seq<u8>, b: Seq<u8>, n: nat)
    ensures
        byte_difference(a, b, n) == byte_difference(b, a, n),
    decreases n,
{
    if n > 0 {
        lemma_byte_difference_symmetric(a, b, (n - 1) as nat);
    }
}

/// The byte difference of the first `n` bytes is zero exactly when those bytes agree.
pub proof fn lemma_byte_difference_zero_iff_equal(a: Seq<u8>, b: Seq<u8>, n: nat)
    requires
        n <= a.len(),
        n <= b.len(),
    ensures
        byte_difference(a, b, n) == 0 <==> a.take(n as int) == b.take(n as int),
    decreases n,
{
    lemma_byte_difference_nonnegative(a, b, n);
    if n > 0 {
        let m = (n - 1) as nat;
        lemma_byte_difference_zero_iff_equal(a, b, m);
        lemma_byte_difference_nonnegative(a, b, m);
        assert(a.take(n as int).drop_last() =~= a.take(m as int));
        assert(b.take(n as int).drop_last() =~= b.take(m as int));
        if a.take(n as int) == b.take(n as int) {
            assert(a[m as int] == a.take(n as int)[m as int]);
            assert(b[m as int] == b.take(n as int)[m as int]);
        }
        if byte_difference(a, b, n) == 0 {
            assert(a.take(n as int) =~= b.take(n as int)) by {
                assert forall|k: int| 0 <= k < n implies a.take(n as int)[k] == b.take(n as int)[k] by {
                    if k < m {
                        assert(a.take(m as int)[k] == b.take(m as int)[k]);
                    }
                }
            }
        }
    } else {
        assert(a.take(0) =~= b.take(0));
    }
}

/// Changing one byte among the first `n` gives a byte difference of exactly how far
/// that byte moved.
pub proof fn lemma_byte_difference_one_byte(a: Seq<u8>, k: int, v: u8, n: nat)
    requires
        0 <= k < n <= a.len(),
    ensures
        byte_difference(a, a.update(k, v), n) == if a[k] >= v {
            a[k] - v
        } else {
            v - a[k]
        },
    decreases n,
{
    let b = a.update(k, v);
    let m = (n - 1) as nat;
    if k < m {
        lemma_byte_difference_one_byte(a, k, v, m);
        assert(b[m as int] == a[m as int]);
    } else {
        lemma_byte_difference_unchanged(a, b, m);
    }
}

proof fn lemma_byte_difference_unchanged(a: Seq<u8>, b: Seq<u8>, n: nat)
    requires
        n <= a.len(),
        n <= b.len(),
        forall|j: int| 0 <= j < n ==> a[j] == b[j],
    ensures
        byte_difference(a, b, n) == 0,
    decreases n,
{
    if n > 0 {
        lemma_byte_difference_unchanged(a, b, (n - 1) as nat);
    }
}

/// The byte difference is a distance: going through a third signature is never shorter.
pub proof fn lemma_byte_difference_triangle(a: Seq<u8>, b: Seq<u8>, c: Seq<u8>, n: nat)
    ensures
        byte_difference(a, c, n) <= byte_difference(a, b, n) + byte_difference(b, c, n),
    decreases n,
{
    if n > 0 {
        lemma_byte_difference_triangle(a, b, c, (n - 1) as nat);
    }
}

/// A theme image scores zero against a query exactly when its signature is the
/// query's and its hotspot sits at the same place relative to its size.
pub proof fn lemma_zero_score_is_exact_match(
    c: ThemeCursor,
    query: Seq<u8>,
    width: u32,
    height: u32,
    hotspot: Hotspot,
)
    requires
        c.valid(),
        query.len() == SIGNATURE_LEN,
        width > 0,
        height > 0,
    ensures
        candidate_score(c, query, width, height, hotspot) == 0 <==> {
            &&& c.spec_signature() == query
            &&& hotspot.x * c.spec_width() == c.spec_hotspot().x * width
            &&& hotspot.y * c.spec_height() == c.spec_hotspot().y * height
        },
{
    lemma_valid_area(c);
    let sig = c.spec_signature();
    let n = SIGNATURE_LEN as nat;
    lemma_byte_difference_nonnegative(query, sig, n);
    lemma_byte_difference_zero_iff_equal(query, sig, n);
    assert(query.take(n as int) =~= query);
    assert(sig.take(n as int) =~= sig);
    let d = byte_difference(query, sig, n);
    let aw = width as int;
    let ah = height as int;
    let bw = c.spec_width() as int;
    let bh = c.spec_height() as int;
    let nx = abs_diff(hotspot.x * bw, c.spec_hotspot().x * aw);
    let ny = abs_diff(hotspot.y * bh, c.spec_hotspot().y * ah);
    let hs = crate::classifier::HOTSPOT_DISTANCE_SCALE as int;
    assert(candidate_score(c, query, width, height, hotspot) == d * (aw * ah) * (bw * bh) + hs * (
    nx * ah * bh + ny * aw * bw));
    assert(d * (aw * ah) * (bw * bh) == 0 <==> d == 0) by (nonlinear_arith)
        requires
            aw > 0,
            ah > 0,
            bw > 0,
            bh > 0,
    ;
    assert(nx * ah * bh == 0 <==> nx == 0) by (nonlinear_arith)
        requires
            ah > 0,
            bh > 0,
    ;
    assert(ny * aw * bw == 0 <==> ny == 0) by (nonlinear_arith)
        requires
            aw > 0,
            bw > 0,
    ;
    assert(d * (aw * ah) * (bw * bh) >= 0 && nx * ah * bh >= 0 && ny * aw * bw >= 0) by (nonlinear_arith)
        requires
            d >= 0,
            nx >= 0,
            ny >= 0,
            aw > 0,
            ah > 0,
            bw > 0,
            bh > 0,
    ;
}

/// The byte difference of `n` bytes is at most `255 * n`, and `IMAGE_DISTANCE_SCALE`
/// is that largest difference for whole signatures, so the image distance
/// `byte_difference / IMAGE_DISTANCE_SCALE` lies between 0 and 1; the hotspot
/// distance weighs a fifth of it.
pub proof fn lemma_distance_scales(a: Seq<u8>, b: Seq<u8>, n: nat)
    ensures
        0 <= byte_difference(a, b, n) <= 255 * n,
        IMAGE_DISTANCE_SCALE == 255 * SIGNATURE_LEN,
        5 * crate::classifier::HOTSPOT_DISTANCE_SCALE == IMAGE_DISTANCE_SCALE,
    decreases n,
{
    if n > 0 {
        lemma_distance_scales(a, b, (n - 1) as nat);
    }
}

} // verus!
