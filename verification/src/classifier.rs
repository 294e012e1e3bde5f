//! Classification of cursor bitmaps against the shapes of the installed cursor themes.
use std::collections::HashMap;
use vstd::prelude::*;

use crate::bitmap::{
    canonical_bitmap, canonical_bitmap_defined, canonical_bitmap_of, chunk_index, image_signature,
    image_signature_defined, signature_of, VideoFormat, SIGNATURE_LEN,
};
use crate::cursor::{CursorKind, Hotspot};
use crate::wide::{add_wide, le_wide, mul_wide};

verus! {

broadcast use vstd::std_specs::hash::group_hash_axioms;

/// One image of a theme cursor, reduced to what classification compares.
#[derive(Debug)]
pub struct ThemeCursor {
    kind: CursorKind,
    width: u32,
    height: u32,
    hotspot: Hotspot,
    signature: Vec<u8>,
}

impl ThemeCursor {
    /// What every theme image satisfies: it is at least one and at most `0x7fff`
    /// pixels on a side, as Xcursor images are, and the signature has its fixed length.
    #[verifier::type_invariant]
    spec fn well_formed(self) -> bool {
        &&& 1 <= self.width <= 0x7fff
        &&& 1 <= self.height <= 0x7fff
        &&& self.signature@.len() == SIGNATURE_LEN
    }

    /// Whether this image keeps the bounds of theme images; every `ThemeCursor` does.
    pub closed spec fn valid(self) -> bool {
        self.well_formed()
    }

    pub closed spec fn spec_kind(&self) -> CursorKind {
        self.kind
    }

    pub closed spec fn spec_width(&self) -> u32 {
        self.width
    }

    pub closed spec fn spec_height(&self) -> u32 {
        self.height
    }

    pub closed spec fn spec_hotspot(&self) -> Hotspot {
        self.hotspot
    }

    pub closed spec fn spec_signature(&self) -> Seq<u8> {
        self.signature@
    }

    /// The theme image of `kind` with the given tightly packed RGBA pixels; `None` when
    /// the image has no signature.
    pub fn from_rgba(kind: CursorKind, width: u32, height: u32, hotspot: Hotspot, pixels: &[u8]) -> (res:
        Option<Self>)
        requires
            width <= 0x7fff,
            height <= 0x7fff,
        ensures
            res is Some <==> image_signature_defined(pixels@.len(), width, height),
            res matches Some(c) ==> {
                &&& c.valid()
                &&& c.spec_kind() == kind
                &&& c.spec_width() == width
                &&& c.spec_height() == height
                &&& c.spec_hotspot() == hotspot
                &&& c.spec_signature() == signature_of(pixels@, width, height)
            },
    {
        match image_signature(pixels, width, height) {
            Some(signature) => Some(ThemeCursor { kind, width, height, hotspot, signature }),
            None => None,
        }
    }
}

/// A valid theme image has a positive area.
pub proof fn lemma_valid_area(c: ThemeCursor)
    requires
        c.valid(),
    ensures
        candidate_area(c) > 0,
        1 <= c.spec_width() <= 0x7fff,
        1 <= c.spec_height() <= 0x7fff,
        c.spec_signature().len() == SIGNATURE_LEN,
{
    assert(c.width * c.height > 0) by (nonlinear_arith)
        requires
            c.width >= 1,
            c.height >= 1,
    ;
}

/// A theme image as plain values: kind, width, height, hotspot and signature.
pub type ThemeImageView = (CursorKind, u32, u32, Hotspot, Seq<u8>);

/// The plain values of a theme image.
pub open spec fn theme_image_view(c: ThemeCursor) -> ThemeImageView {
    (c.spec_kind(), c.spec_width(), c.spec_height(), c.spec_hotspot(), c.spec_signature())
}

impl ThemeCursor {
    /// Whether two theme images agree in kind, size, hotspot and signature.
    pub fn same_image(&self, other: &ThemeCursor) -> (res: bool)
        ensures
            res == (theme_image_view(*self) == theme_image_view(*other)),
    {
        if self.kind != other.kind || self.width != other.width || self.height != other.height
            || self.hotspot.x != other.hotspot.x || self.hotspot.y != other.hotspot.y
            || self.signature.len() != other.signature.len() {
            return false;
        }
        let mut i: usize = 0;
        while i < self.signature.len()
            invariant
                self.signature@.len() == other.signature@.len(),
                i <= self.signature@.len(),
                forall|j: int| 0 <= j < i ==> self.signature@[j] == other.signature@[j],
            decreases self.signature@.len() - i,
        {
            if self.signature[i] != other.signature[i] {
                return false;
            }
            i = i + 1;
        }
        assert(self.signature@ =~= other.signature@);
        true
    }
}

impl Clone for ThemeCursor {
    /// A copy of the image.
    fn clone(&self) -> (res: Self)
        ensures
            res.valid(),
            theme_image_view(res) == theme_image_view(*self),
    {
        proof {
            use_type_invariant(self);
        }
        let mut signature: Vec<u8> = Vec::with_capacity(self.signature.len());
        let mut i: usize = 0;
        while i < self.signature.len()
            invariant
                i <= self.signature@.len(),
                signature@ == self.signature@.take(i as int),
            decreases self.signature@.len() - i,
        {
            signature.push(self.signature[i]);
            i = i + 1;
            assert(signature@ =~= self.signature@.take(i as int));
        }
        assert(self.signature@.take(self.signature@.len() as int) =~= self.signature@);
        ThemeCursor {
            kind: self.kind,
            width: self.width,
            height: self.height,
            hotspot: self.hotspot,
            signature,
        }
    }
}

/// `|a - b|`.
pub open spec fn abs_diff(a: int, b: int) -> int {
    if a >= b {
        a - b
    } else {
        b - a
    }
}

/// The sum of the absolute differences of the first `n` bytes of two signatures.
pub open spec fn byte_difference(a: Seq<u8>, b: Seq<u8>, n: nat) -> int
    decreases n,
{
    if n == 0 {
        0
    } else {
        byte_difference(a, b, (n - 1) as nat) + abs_diff(a[n - 1] as int, b[n - 1] as int)
    }
}

/// The largest byte difference of two signatures: `SIGNATURE_LEN * 255`.
pub const IMAGE_DISTANCE_SCALE: u128 = 587520;

/// `IMAGE_DISTANCE_SCALE / 5`, the weight of the hotspot distance.
pub const HOTSPOT_DISTANCE_SCALE: u128 = 117504;

/// The score of a theme image `b` against a query image `a`, multiplied by
/// `IMAGE_DISTANCE_SCALE * (aw * ah) * (bw * bh)`. The score itself is the exact
/// rational `d / IMAGE_DISTANCE_SCALE + (|ax / aw - bx / bw| + |ay / ah - by / bh|) / 5`,
/// where `d` is the byte difference of the signatures: the image distance plus a
/// fifth of the distance between the hotspots relative to the image sizes.
pub open spec fn scaled_score(d: int, aw: int, ah: int, ax: int, ay: int, bw: int, bh: int, bx: int, by: int) -> int {
    d * (aw * ah) * (bw * bh) + HOTSPOT_DISTANCE_SCALE * (abs_diff(ax * bw, bx * aw) * ah * bh
        + abs_diff(ay * bh, by * ah) * aw * bw)
}

/// The scaled score of candidate `c` against the query signature `query` of a
/// `width` by `height` image with hotspot `hotspot`.
pub open spec fn candidate_score(c: ThemeCursor, query: Seq<u8>, width: u32, height: u32, hotspot: Hotspot) -> int {
    scaled_score(
        byte_difference(query, c.spec_signature(), SIGNATURE_LEN as nat),
        width as int,
        height as int,
        hotspot.x as int,
        hotspot.y as int,
        c.spec_width() as int,
        c.spec_height() as int,
        c.spec_hotspot().x as int,
        c.spec_hotspot().y as int,
    )
}

/// The area of candidate `c`: its score is `candidate_score / (IMAGE_DISTANCE_SCALE *
/// width * height * candidate_area)`.
pub open spec fn candidate_area(c: ThemeCursor) -> int {
    c.spec_width() * c.spec_height()
}

/// Candidate `i` does not lose to candidate `j`: when both are of one kind, the score
/// of `i` is at most that of `j`; otherwise the score of `j` exceeds that of `i` by at
/// least `1/50`.
pub open spec fn beats(
    cands: Seq<ThemeCursor>,
    query: Seq<u8>,
    width: u32,
    height: u32,
    hotspot: Hotspot,
    i: int,
    j: int,
) -> bool {
    let ti = candidate_score(cands[i], query, width, height, hotspot);
    let tj = candidate_score(cands[j], query, width, height, hotspot);
    let ci = candidate_area(cands[i]);
    let cj = candidate_area(cands[j]);
    if cands[j].spec_kind() == cands[i].spec_kind() {
        ti * cj <= tj * ci
    } else {
        50 * tj * ci >= 50 * ti * cj + IMAGE_DISTANCE_SCALE * (width * height) * cj * ci
    }
}

/// Candidate `i` decides the classification: its score is at most `9/50`, no
/// candidate of its kind scores lower, and every candidate of another kind scores at
/// least `1/50` more. Scores are compared as exact fractions, so a score of exactly
/// `9/50`, and a lead of exactly `1/50`, count as a match.
pub open spec fn is_winner(
    cands: Seq<ThemeCursor>,
    query: Seq<u8>,
    width: u32,
    height: u32,
    hotspot: Hotspot,
    i: int,
) -> bool {
    &&& 0 <= i < cands.len()
    &&& 50 * candidate_score(cands[i], query, width, height, hotspot) <= 9 * IMAGE_DISTANCE_SCALE
        * (width * height) * candidate_area(cands[i])
    &&& forall|j: int|
        0 <= j < cands.len() ==> #[trigger] beats(cands, query, width, height, hotspot, i, j)
}

/// The kind that a bitmap is classified as: that of the winning candidate, when
/// there are candidates, the bitmap has a signature, and a candidate wins.
pub open spec fn spec_match_pixels(
    cands: Seq<ThemeCursor>,
    width: u32,
    height: u32,
    hotspot: Hotspot,
    pixels: Seq<u8>,
) -> Option<CursorKind> {
    let query = signature_of(pixels, width, height);
    if cands.len() > 0 && image_signature_defined(pixels.len(), width, height) && exists|i: int|
        is_winner(cands, query, width, height, hotspot, i) {
        Some(cands[choose|i: int| is_winner(cands, query, width, height, hotspot, i)].spec_kind())
    } else {
        None
    }
}

/// Maps cursor bitmaps to portable cursor kinds, remembering the kind found for each shape id.
#[derive(Debug)]
pub struct CursorClassifier {
    candidates: Vec<ThemeCursor>,
    cache: HashMap<u64, CursorKind>,
}

impl CursorClassifier {
    /// The shapes this classifier compares against.
    pub closed spec fn candidates(&self) -> Seq<ThemeCursor> {
        self.candidates@
    }

    /// The kinds already decided, by shape id.
    pub closed spec fn cache(&self) -> Map<u64, CursorKind> {
        self.cache@
    }

    /// A classifier over the cursor shapes loaded from the system's themes, with nothing decided yet.
    pub fn system(candidates: Vec<ThemeCursor>) -> (res: Self)
        ensures
            res.candidates() == candidates@,
            res.cache() == Map::<u64, CursorKind>::empty(),
    {
        CursorClassifier { candidates, cache: HashMap::new() }
    }
}


/// With positive denominators, `a/b <= c/d` and `c/d <= e/f` give `a/b <= e/f`, all
/// in cross-multiplied form.
pub(crate) proof fn lemma_ratio_le_trans(a: int, b: int, c: int, d: int, e: int, f: int)
    requires
        b > 0,
        d > 0,
        f > 0,
        a * d <= c * b,
        c * f <= e * d,
    ensures
        a * f <= e * b,
{
    assert(a * d * f <= c * b * f) by (nonlinear_arith)
        requires
            a * d <= c * b,
            f > 0,
    ;
    assert(c * f * b <= e * d * b) by (nonlinear_arith)
        requires
            c * f <= e * d,
            b > 0,
    ;
    assert(d * (a * f) <= d * (e * b)) by (nonlinear_arith)
        requires
            a * d * f <= c * b * f,
            c * f * b <= e * d * b,
    ;
    assert(a * f <= e * b) by (nonlinear_arith)
        requires
            d * (a * f) <= d * (e * b),
            d > 0,
    ;
}

/// The winner and the first best-scoring candidate `b` are of one kind and score the same.
proof fn lemma_winner_is_best(ti: int, ci: int, tb: int, cb: int, area: int, same_kind: bool)
    requires
        ci > 0,
        cb > 0,
        area > 0,
        tb * ci <= ti * cb,
        same_kind ==> ti * cb <= tb * ci,
        !same_kind ==> 50 * tb * ci >= 50 * ti * cb + IMAGE_DISTANCE_SCALE * area * cb * ci,
    ensures
        same_kind,
        ti * cb == tb * ci,
{
    if !same_kind {
        assert(IMAGE_DISTANCE_SCALE * area * cb * ci > 0) by (nonlinear_arith)
            requires
                area > 0,
                cb > 0,
                ci > 0,
        ;
        assert(50 * tb * ci == 50 * (tb * ci)) by (nonlinear_arith);
        assert(50 * ti * cb == 50 * (ti * cb)) by (nonlinear_arith);
    }
}

/// Scores that are equal as rationals pass the threshold together.
pub(crate) proof fn lemma_threshold_transfer(ti: int, ci: int, tb: int, cb: int, m: int)
    requires
        ci > 0,
        cb > 0,
        ti * cb == tb * ci,
        50 * ti <= m * ci,
    ensures
        50 * tb <= m * cb,
{
    assert(ci * (50 * tb) <= ci * (m * cb)) by (nonlinear_arith)
        requires
            ti * cb == tb * ci,
            50 * ti <= m * ci,
            cb > 0,
    ;
    assert(50 * tb <= m * cb) by (nonlinear_arith)
        requires
            ci * (50 * tb) <= ci * (m * cb),
            ci > 0,
    ;
}

/// Scores that are equal as rationals keep the same margin to another score.
pub(crate) proof fn lemma_margin_transfer(ti: int, ci: int, tb: int, cb: int, tj: int, cj: int, k: int)
    requires
        ci > 0,
        cb > 0,
        cj > 0,
        ti * cb == tb * ci,
        50 * tj * ci >= 50 * ti * cj + k * cj * ci,
    ensures
        50 * tj * cb >= 50 * tb * cj + k * cj * cb,
{
    assert(ci * (50 * tj * cb) >= ci * (50 * tb * cj + k * cj * cb)) by (nonlinear_arith)
        requires
            ti * cb == tb * ci,
            50 * tj * ci >= 50 * ti * cj + k * cj * ci,
            cb > 0,
    ;
    assert(50 * tj * cb >= 50 * tb * cj + k * cj * cb) by (nonlinear_arith)
        requires
            ci * (50 * tj * cb) >= ci * (50 * tb * cj + k * cj * cb),
            ci > 0,
    ;
}


/// `a * b <= x * y` for `0 <= a <= x` and `0 <= b <= y`.
pub(crate) proof fn lemma_mul_bound(a: int, b: int, x: int, y: int)
    requires
        0 <= a <= x,
        0 <= b <= y,
    ensures
        a * b <= x * y,
{
    assert(a * b <= x * y) by (nonlinear_arith)
        requires
            0 <= a <= x,
            0 <= b <= y,
    ;
}

/// The largest value of one hotspot term of a scaled score.
spec fn hotspot_term_bound() -> int {
    (0xffff_ffffint * 0x7fffint * 0xffff_ffffint + 0xffff_ffffint * 0x4000_0000_0000_0000int) * 0x7fffint
}

/// A bound on one hotspot term of the scaled score, `|x * w2 - x2 * w| * h * h2`,
/// for a query image of `w` by `h` pixels, with `w * h` below `2^62`, and a theme
/// image of `w2` by `h2` pixels.
proof fn lemma_hotspot_term_bound(n: int, x: int, x2: int, w: int, h: int, w2: int, h2: int)
    requires
        0 <= x <= 0xffff_ffff,
        0 <= x2 <= 0xffff_ffff,
        0 <= w <= 0xffff_ffff,
        0 <= h <= 0xffff_ffff,
        0 <= w2 <= 0x7fff,
        0 <= h2 <= 0x7fff,
        w * h < 0x4000_0000_0000_0000,
        n == abs_diff(x * w2, x2 * w),
    ensures
        0 <= n * h * h2 <= hotspot_term_bound(),
        0 <= n * h <= 0xffff_ffffint * 0x7fffint * 0xffff_ffffint + 0xffff_ffffint * 0x4000_0000_0000_0000int,
{
    lemma_mul_bound(x, w2, 0xffff_ffff, 0x7fff);
    lemma_mul_bound(x2, w, 0xffff_ffff, 0xffff_ffff);
    let s = x * w2 + x2 * w;
    assert(0 <= n <= s);
    lemma_mul_bound(n, h, s, h);
    assert(s * h == (x * w2) * h + x2 * (w * h)) by (nonlinear_arith)
        requires
            s == x * w2 + x2 * w,
    ;
    lemma_mul_bound(x * w2, h, 0xffff_ffffint * 0x7fffint, 0xffff_ffff);
    lemma_mul_bound(x2, w * h, 0xffff_ffff, 0x4000_0000_0000_0000);
    lemma_mul_bound(
        n * h,
        h2,
        0xffff_ffffint * 0x7fffint * 0xffff_ffffint + 0xffff_ffffint * 0x4000_0000_0000_0000int,
        0x7fff,
    );
}

/// The scaled score and the area of candidate `c` against the query signature
/// `query` of a `width` by `height` image with hotspot `hotspot`.
fn score(c: &ThemeCursor, query: &Vec<u8>, width: u32, height: u32, hotspot: Hotspot) -> (res: (
    u128,
    u64,
))
    requires
        query@.len() == SIGNATURE_LEN,
        width > 0,
        height > 0,
        width * height * 4 <= usize::MAX,
    ensures
        res.0 == candidate_score(*c, query@, width, height, hotspot),
        res.1 == candidate_area(*c),
        0 < res.1 < 0x4000_0000,
{
    proof {
        use_type_invariant(c);
    }
    let mut d: u64 = 0;
    let mut i: usize = 0;
    while i < SIGNATURE_LEN
        invariant
            i <= SIGNATURE_LEN,
            query@.len() == SIGNATURE_LEN,
            c.signature@.len() == SIGNATURE_LEN,
            d == byte_difference(query@, c.signature@, i as nat),
            d <= 255 * i,
        decreases SIGNATURE_LEN - i,
    {
        let a = query[i];
        let b = c.signature[i];
        let diff: u8 = if a >= b {
            a - b
        } else {
            b - a
        };
        d = d + diff as u64;
        i = i + 1;
    }
    let aw = width as u128;
    let ah = height as u128;
    let bw = c.width as u128;
    let bh = c.height as u128;
    let ax = hotspot.x as u128;
    let ay = hotspot.y as u128;
    let bx = c.hotspot.x as u128;
    let by = c.hotspot.y as u128;
    proof {
        assert(aw * ah < 0x4000_0000_0000_0000) by (nonlinear_arith)
            requires
                aw * ah * 4 <= usize::MAX,
                usize::MAX <= 0xffff_ffff_ffff_ffff,
        ;
        lemma_mul_bound(bw as int, bh as int, 0x7fff, 0x7fff);
        assert(bw * bh >= 1) by (nonlinear_arith)
            requires
                bw >= 1,
                bh >= 1,
        ;
        lemma_mul_bound(ax as int, bw as int, 0xffff_ffff, 0x7fff);
        lemma_mul_bound(bx as int, aw as int, 0xffff_ffff, 0xffff_ffff);
        lemma_mul_bound(ay as int, bh as int, 0xffff_ffff, 0x7fff);
        lemma_mul_bound(by as int, ah as int, 0xffff_ffff, 0xffff_ffff);
    }
    let area_q = aw * ah;
    let area_c = bw * bh;
    proof {
        lemma_mul_bound(d as int, area_q as int, 587520, 0x4000_0000_0000_0000);
        lemma_mul_bound(
            (d * area_q) as int,
            area_c as int,
            587520int * 0x4000_0000_0000_0000int,
            0x7fffint * 0x7fffint,
        );
    }
    let term1 = (d as u128) * area_q * area_c;
    let nx: u128 = if ax * bw >= bx * aw {
        ax * bw - bx * aw
    } else {
        bx * aw - ax * bw
    };
    let ny: u128 = if ay * bh >= by * ah {
        ay * bh - by * ah
    } else {
        by * ah - ay * bh
    };
    proof {
        lemma_hotspot_term_bound(nx as int, ax as int, bx as int, aw as int, ah as int, bw as int, bh as int);
        lemma_hotspot_term_bound(ny as int, ay as int, by as int, ah as int, aw as int, bh as int, bw as int);
    }
    let term2 = nx * ah * bh;
    let term3 = ny * aw * bw;
    assert(term1 + HOTSPOT_DISTANCE_SCALE * (term2 + term3) <= u128::MAX) by {
        assert(hotspot_term_bound() == (0xffff_ffffint * 0x7fffint * 0xffff_ffffint + 0xffff_ffffint
            * 0x4000_0000_0000_0000int) * 0x7fffint);
    }
    let t = term1 + HOTSPOT_DISTANCE_SCALE * (term2 + term3);
    proof {
        assert(c.signature@ == c.spec_signature());
    }
    (t, area_c as u64)
}


impl CursorClassifier {
    /// Classifies a tightly packed RGBA bitmap by its signature and hotspot: the kind
    /// of the candidate that wins (see `is_winner`), or `None` when there are no
    /// candidates, the bitmap has no signature, or no candidate wins clearly. Scores
    /// are exact fractions, compared without rounding: a best score of exactly `9/50`
    /// passes the threshold, and a lead of exactly `1/50` over every other kind is
    /// clear enough.
    pub fn match_pixels(&self, width: u32, height: u32, hotspot: Hotspot, pixels: &[u8]) -> (res:
        Option<CursorKind>)
        ensures
            res == spec_match_pixels(self.candidates(), width, height, hotspot, pixels@),
    {
        let n = self.candidates.len();
        if n == 0 {
            return None;
        }
        let query = match image_signature(pixels, width, height) {
            Some(q) => q,
            None => return None,
        };
        let ghost cands = self.candidates@;
        let ghost q = query@;
        assert(q == signature_of(pixels@, width, height));
        proof {
            lemma_mul_bound(width as int, height as int, 0xffff_ffff, 0xffff_ffff);
        }
        let area_q: u128 = width as u128 * height as u128;
        assert(area_q * 4 <= usize::MAX) by (nonlinear_arith)
            requires
                area_q == width * height,
                width * height * 4 == pixels@.len(),
                pixels@.len() <= usize::MAX,
        ;
        assert(area_q > 0) by (nonlinear_arith)
            requires
                area_q == width * height,
                width > 0,
                height > 0,
        ;
        let (t0, c0) = score(&self.candidates[0], &query, width, height, hotspot);
        let mut best: usize = 0;
        let mut best_t: u128 = t0;
        let mut best_c: u64 = c0;
        let mut i: usize = 1;
        while i < n
            invariant
                n == cands.len(),
                cands == self.candidates@,
                q == query@,
                q.len() == SIGNATURE_LEN,
                width > 0,
                height > 0,
                width * height * 4 <= usize::MAX,
                1 <= i <= n,
                best < i,
                best_t == candidate_score(cands[best as int], q, width, height, hotspot),
                best_c == candidate_area(cands[best as int]),
                0 < best_c < 0x4000_0000,
                forall|j: int| 0 <= j < i ==> candidate_area(#[trigger] cands[j]) > 0,
                forall|j: int|
                    0 <= j < i ==> best_t * candidate_area(#[trigger] cands[j]) <= candidate_score(
                        cands[j],
                        q,
                        width,
                        height,
                        hotspot,
                    ) * best_c,
            decreases n - i,
        {
            let (t, c) = score(&self.candidates[i], &query, width, height, hotspot);
            if !le_wide(mul_wide(best_t, c), mul_wide(t, best_c)) {
                proof {
                    assert forall|j: int| 0 <= j < i + 1 implies t * candidate_area(
                        #[trigger] cands[j],
                    ) <= candidate_score(cands[j], q, width, height, hotspot) * c by {
                        if j < i {
                            let tj = candidate_score(cands[j], q, width, height, hotspot);
                            let cj = candidate_area(cands[j]);
                            lemma_ratio_le_trans(
                                t as int,
                                c as int,
                                best_t as int,
                                best_c as int,
                                tj,
                                cj,
                            );
                        }
                    }
                }
                best = i;
                best_t = t;
                best_c = c;
            }
            i = i + 1;
        }
        proof {
            assert(area_q < 0x4000_0000_0000_0000) by (nonlinear_arith)
                requires
                    area_q * 4 <= usize::MAX,
                    usize::MAX <= 0xffff_ffff_ffff_ffff,
            ;
        }
        let limit = mul_wide(9 * IMAGE_DISTANCE_SCALE * area_q, best_c);
        if !le_wide(mul_wide(best_t, 50), limit) {
            proof {
                lemma_threshold_fails_no_winner(cands, q, width, height, hotspot, best as int);
            }
            return None;
        }
        let kind = self.candidates[best].kind;
        let mut j: usize = 0;
        while j < n
            invariant
                n == cands.len(),
                cands == self.candidates@,
                q == query@,
                q.len() == SIGNATURE_LEN,
                width > 0,
                height > 0,
                width * height * 4 <= usize::MAX,
                area_q == width * height,
                q == signature_of(pixels@, width, height),
                image_signature_defined(pixels@.len(), width, height),
                area_q > 0,
                area_q < 0x4000_0000_0000_0000,
                best < n,
                kind == cands[best as int].spec_kind(),
                best_t == candidate_score(cands[best as int], q, width, height, hotspot),
                best_c == candidate_area(cands[best as int]),
                0 < best_c < 0x4000_0000,
                forall|jj: int| 0 <= jj < n ==> candidate_area(#[trigger] cands[jj]) > 0,
                forall|jj: int|
                    0 <= jj < n ==> best_t * candidate_area(#[trigger] cands[jj]) <= candidate_score(
                        cands[jj],
                        q,
                        width,
                        height,
                        hotspot,
                    ) * best_c,
                0 <= j <= n,
                forall|jj: int| 0 <= jj < j ==> #[trigger] beats(cands, q, width, height, hotspot, best as int, jj),
            decreases n - j,
        {
            let other = &self.candidates[j];
            if other.kind != kind {
                let (t, c) = score(other, &query, width, height, hotspot);
                proof {
                    lemma_mul_bound(
                        (IMAGE_DISTANCE_SCALE * area_q) as int,
                        c as int,
                        587520int * 0x4000_0000_0000_0000int,
                        0x4000_0000,
                    );
                    lemma_mul_bound(best_t as int, (50 * c) as int, u128::MAX as int, 50int * 0x4000_0000);
                    lemma_mul_bound(
                        (IMAGE_DISTANCE_SCALE * area_q * c) as int,
                        best_c as int,
                        587520int * 0x4000_0000_0000_0000int * 0x4000_0000int,
                        0x4000_0000,
                    );
                    assert(t * (50 * best_c) == 50 * t * best_c) by (nonlinear_arith);
                    assert(best_t * (50 * c) == 50 * best_t * c) by (nonlinear_arith);
                }
                let lhs = mul_wide(t, 50 * best_c);
                let rhs = add_wide(
                    mul_wide(best_t, 50 * c),
                    mul_wide(IMAGE_DISTANCE_SCALE * area_q * (c as u128), best_c),
                );
                if !le_wide(rhs, lhs) {
                    proof {
                        lemma_margin_fails_no_winner(
                            cands,
                            q,
                            width,
                            height,
                            hotspot,
                            best as int,
                            j as int,
                        );
                    }
                    return None;
                }
            }
            j = j + 1;
        }
        proof {
            assert(is_winner(cands, q, width, height, hotspot, best as int));
            assert forall|i: int| is_winner(cands, q, width, height, hotspot, i) implies cands[i].spec_kind()
                == kind by {
                lemma_winner_matches_lowest(cands, q, width, height, hotspot, best as int, i);
            }
        }
        Some(kind)
    }
}


/// No candidate scores below candidate `b`.
pub open spec fn scores_lowest(
    cands: Seq<ThemeCursor>,
    query: Seq<u8>,
    width: u32,
    height: u32,
    hotspot: Hotspot,
    b: int,
) -> bool {
    &&& 0 <= b < cands.len()
    &&& forall|j: int| 0 <= j < cands.len() ==> candidate_area(#[trigger] cands[j]) > 0
    &&& forall|j: int|
        0 <= j < cands.len() ==> candidate_score(cands[b], query, width, height, hotspot)
            * candidate_area(#[trigger] cands[j]) <= candidate_score(
            cands[j],
            query,
            width,
            height,
            hotspot,
        ) * candidate_area(cands[b])
}

/// A winner is of the kind of a lowest-scoring candidate and scores the same.
pub(crate) proof fn lemma_winner_matches_lowest(
    cands: Seq<ThemeCursor>,
    query: Seq<u8>,
    width: u32,
    height: u32,
    hotspot: Hotspot,
    b: int,
    i: int,
)
    requires
        width * height > 0,
        scores_lowest(cands, query, width, height, hotspot, b),
        is_winner(cands, query, width, height, hotspot, i),
    ensures
        cands[i].spec_kind() == cands[b].spec_kind(),
        candidate_score(cands[i], query, width, height, hotspot) * candidate_area(cands[b])
            == candidate_score(cands[b], query, width, height, hotspot) * candidate_area(cands[i]),
{
    assert(beats(cands, query, width, height, hotspot, i, b));
    let ci = candidate_area(cands[i]);
    let cb = candidate_area(cands[b]);
    assert(ci > 0 && cb > 0);
    lemma_winner_is_best(
        candidate_score(cands[i], query, width, height, hotspot),
        ci,
        candidate_score(cands[b], query, width, height, hotspot),
        cb,
        width * height,
        cands[b].spec_kind() == cands[i].spec_kind(),
    );
}

/// When the lowest score is above the threshold, no candidate wins.
proof fn lemma_threshold_fails_no_winner(
    cands: Seq<ThemeCursor>,
    query: Seq<u8>,
    width: u32,
    height: u32,
    hotspot: Hotspot,
    b: int,
)
    requires
        width * height > 0,
        scores_lowest(cands, query, width, height, hotspot, b),
        50 * candidate_score(cands[b], query, width, height, hotspot) > 9 * IMAGE_DISTANCE_SCALE
            * (width * height) * candidate_area(cands[b]),
    ensures
        forall|i: int| !is_winner(cands, query, width, height, hotspot, i),
{
    assert forall|i: int| !is_winner(cands, query, width, height, hotspot, i) by {
        if is_winner(cands, query, width, height, hotspot, i) {
            lemma_winner_matches_lowest(cands, query, width, height, hotspot, b, i);
            lemma_threshold_transfer(
                candidate_score(cands[i], query, width, height, hotspot),
                candidate_area(cands[i]),
                candidate_score(cands[b], query, width, height, hotspot),
                candidate_area(cands[b]),
                9 * IMAGE_DISTANCE_SCALE * (width * height),
            );
        }
    }
}

/// When a candidate of another kind scores less than `1/50` above the lowest score,
/// no candidate wins.
proof fn lemma_margin_fails_no_winner(
    cands: Seq<ThemeCursor>,
    query: Seq<u8>,
    width: u32,
    height: u32,
    hotspot: Hotspot,
    b: int,
    j: int,
)
    requires
        width * height > 0,
        scores_lowest(cands, query, width, height, hotspot, b),
        0 <= j < cands.len(),
        cands[j].spec_kind() != cands[b].spec_kind(),
        !beats(cands, query, width, height, hotspot, b, j),
    ensures
        forall|i: int| !is_winner(cands, query, width, height, hotspot, i),
{
    assert forall|i: int| !is_winner(cands, query, width, height, hotspot, i) by {
        if is_winner(cands, query, width, height, hotspot, i) {
            lemma_winner_matches_lowest(cands, query, width, height, hotspot, b, i);
            assert(beats(cands, query, width, height, hotspot, i, j));
            assert(candidate_area(cands[j]) > 0);
            lemma_margin_transfer(
                candidate_score(cands[i], query, width, height, hotspot),
                candidate_area(cands[i]),
                candidate_score(cands[b], query, width, height, hotspot),
                candidate_area(cands[b]),
                candidate_score(cands[j], query, width, height, hotspot),
                candidate_area(cands[j]),
                IMAGE_DISTANCE_SCALE * (width * height),
            );
        }
    }
}

/// Whether the bitmap normalizes and the alpha of every one of its pixels is zero.
pub open spec fn spec_is_fully_transparent(
    format: VideoFormat,
    width: u32,
    height: u32,
    stride: i32,
    pixels: Seq<u8>,
) -> bool {
    &&& canonical_bitmap_defined(format, width, height, stride, pixels.len())
    &&& forall|p: int|
        0 <= p < height * width ==> #[trigger] canonical_bitmap_of(
            format,
            pixels,
            width,
            height,
            stride,
        )[chunk_index(p, 3)] == 0
}

/// The kind a bitmap is classified as when nothing is cached for it: the kind matched
/// by its normalized pixels, or `Custom`.
pub open spec fn spec_classify_bitmap(
    cands: Seq<ThemeCursor>,
    format: VideoFormat,
    width: u32,
    height: u32,
    stride: i32,
    pixels: Seq<u8>,
    hotspot: Hotspot,
) -> CursorKind {
    if canonical_bitmap_defined(format, width, height, stride, pixels.len()) {
        match spec_match_pixels(
            cands,
            width,
            height,
            hotspot,
            canonical_bitmap_of(format, pixels, width, height, stride),
        ) {
            Some(k) => k,
            None => CursorKind::Custom,
        }
    } else {
        CursorKind::Custom
    }
}

/// The kind reported for shape `shape_id` and the cache afterwards: a cached kind is
/// reported as it is; otherwise the bitmap is classified and the kind cached.
pub open spec fn classify_outcome(
    cands: Seq<ThemeCursor>,
    cache: Map<u64, CursorKind>,
    shape_id: u64,
    format: VideoFormat,
    width: u32,
    height: u32,
    stride: i32,
    pixels: Seq<u8>,
    hotspot: Hotspot,
) -> (CursorKind, Map<u64, CursorKind>) {
    if cache.contains_key(shape_id) {
        (cache[shape_id], cache)
    } else {
        let kind = spec_classify_bitmap(cands, format, width, height, stride, pixels, hotspot);
        (kind, cache.insert(shape_id, kind))
    }
}

impl CursorClassifier {
    /// Whether the bitmap normalizes and every one of its pixels is fully transparent.
    pub fn is_fully_transparent(
        format: VideoFormat,
        width: u32,
        height: u32,
        stride: i32,
        pixels: &[u8],
    ) -> (res: bool)
        ensures
            res == spec_is_fully_transparent(format, width, height, stride, pixels@),
    {
        let px = match canonical_bitmap(format, width, height, stride, pixels) {
            Some(px) => px,
            None => return false,
        };
        let ghost bitmap = canonical_bitmap_of(format, pixels@, width, height, stride);
        let n = px.len() / 4;
        assert(n == height * width);
        let mut i: usize = 0;
        while i < n
            invariant
                px@ == bitmap,
                bitmap == canonical_bitmap_of(format, pixels@, width, height, stride),
                px@.len() <= usize::MAX,
                n == height * width,
                canonical_bitmap_defined(format, width, height, stride, pixels@.len()),
                px@.len() == height * width * 4,
                n == px@.len() / 4,
                i <= n,
                forall|p: int| 0 <= p < i ==> #[trigger] bitmap[chunk_index(p, 3)] == 0,
            decreases n - i,
        {
            if px[i * 4 + 3] != 0 {
                assert(canonical_bitmap_of(format, pixels@, width, height, stride)[chunk_index(
                    i as int,
                    3,
                )] != 0);
                assert(0 <= i < height * width);
                return false;
            }
            i = i + 1;
        }
        true
    }

    /// The portable kind of the cursor shape `shape_id`, whose bitmap is `pixels`. A
    /// shape is classified once; later calls with the same id report the cached kind
    /// without looking at the bitmap.
    pub fn classify(
        &mut self,
        shape_id: u64,
        format: VideoFormat,
        width: u32,
        height: u32,
        stride: i32,
        pixels: &[u8],
        hotspot: Hotspot,
    ) -> (res: CursorKind)
        ensures
            final(self).candidates() == old(self).candidates(),
            (res, final(self).cache()) == classify_outcome(
                old(self).candidates(),
                old(self).cache(),
                shape_id,
                format,
                width,
                height,
                stride,
                pixels@,
                hotspot,
            ),
    {
        match self.cache.get(&shape_id) {
            Some(kind) => return *kind,
            None => {},
        }
        let kind = match canonical_bitmap(format, width, height, stride, pixels) {
            Some(px) => match self.match_pixels(width, height, hotspot, px.as_slice()) {
                Some(k) => k,
                None => CursorKind::Custom,
            },
            None => CursorKind::Custom,
        };
        self.cache.insert(shape_id, kind);
        kind
    }
}

/// The pixels of a list of RGBA pixels, one after the other.
pub open spec fn flatten_pixels(pixels: Seq<[u8; 4]>) -> Seq<u8> {
    Seq::new(pixels.len() * 4, |i: int| pixels[i / 4]@[i % 4])
}

/// A two by two theme image of `kind` with the given RGBA pixels and hotspot.
pub fn candidate(kind: CursorKind, pixels: &[[u8; 4]], hotspot: Hotspot) -> (res: ThemeCursor)
    requires
        pixels@.len() == 4,
    ensures
        res.valid(),
        res.spec_kind() == kind,
        res.spec_width() == 2,
        res.spec_height() == 2,
        res.spec_hotspot() == hotspot,
        res.spec_signature() == signature_of(flatten_pixels(pixels@), 2, 2),
{
    let mut flat: Vec<u8> = Vec::new();
    let mut i: usize = 0;
    while i < pixels.len()
        invariant
            i <= pixels@.len(),
            pixels@.len() == 4,
            flat@.len() == i * 4,
            forall|j: int| 0 <= j < i * 4 ==> #[trigger] flat@[j] == pixels@[j / 4]@[j % 4],
        decreases pixels@.len() - i,
    {
        let p = pixels[i];
        flat.push(p[0]);
        flat.push(p[1]);
        flat.push(p[2]);
        flat.push(p[3]);
        i = i + 1;
    }
    assert(flat@ =~= flatten_pixels(pixels@));
    let c = ThemeCursor::from_rgba(kind, 2, 2, hotspot, flat.as_slice());
    c.unwrap()
}

/// A classifier over `candidates`, with nothing decided yet.
pub fn classifier(candidates: Vec<ThemeCursor>) -> (res: CursorClassifier)
    ensures
        res.candidates() == candidates@,
        res.cache() == Map::<u64, CursorKind>::empty(),
{
    CursorClassifier::system(candidates)
}

} // verus!
