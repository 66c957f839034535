//! The delta computations of the two codecs. The threshold-gated delta keeps
//! a pixel when its luma or chroma moved past the level's threshold; the
//! budget-ranked delta scores every pixel by squared perceptual distance,
//! drops those under a noise floor, and keeps the highest-ranked `k`, ties
//! broken by scan order.

use crate::color::{lab_a, lab_b, lab_l, yuv_u, yuv_v, yuv_y, Color};
use vstd::assert_multisets_equal;
use crate::frame::{Frame, FrameData, FrameDataView, FrameView};
use crate::levels::{chroma_threshold_of, luma_threshold_of, CompressionLevelV1};
use crate::pixel::Pixel;
use vstd::arithmetic::div_mod::{
    lemma_div_pos_is_pos, lemma_mod_division_less_than_divisor, lemma_multiply_divide_lt,
};
use vstd::prelude::*;

verus! {

/// The absolute difference of two channel values.
pub open spec fn chan_diff(a: int, b: int) -> int {
    if a >= b {
        a - b
    } else {
        b - a
    }
}

/// Whether a pixel's change from `from` to `to` exceeds the level's
/// thresholds: its luma moved more than the luma threshold, or its summed
/// chroma moved more than the chroma threshold at the old luma.
pub open spec fn exceeds_threshold(level: CompressionLevelV1, from: Color, to: Color) -> bool {
    let y_diff = chan_diff(yuv_y(from), yuv_y(to));
    let c_diff = chan_diff(yuv_u(from), yuv_u(to)) + chan_diff(yuv_v(from), yuv_v(to));
    y_diff > luma_threshold_of(level) || c_diff > chroma_threshold_of(level, yuv_y(from))
}

/// The pixel written at flat index `i` of a raster of width `width`, set to
/// the new color there.
pub open spec fn pixel_at(new: Seq<Color>, width: int, i: int) -> Pixel {
    Pixel { x: (i % width) as usize, y: (i / width) as usize, color: new[i] }
}

/// The threshold-gated delta over the first `n` pixels, in scan order.
pub open spec fn threshold_pixels_upto(
    old: Seq<Color>,
    new: Seq<Color>,
    width: int,
    level: CompressionLevelV1,
    n: int,
) -> Seq<Pixel>
    decreases n,
{
    if n <= 0 {
        Seq::empty()
    } else {
        let rest = threshold_pixels_upto(old, new, width, level, n - 1);
        if exceeds_threshold(level, old[n - 1], new[n - 1]) {
            rest.push(pixel_at(new, width, n - 1))
        } else {
            rest
        }
    }
}

/// The pixels the threshold-gated codec retransmits: exactly those whose
/// change exceeds the level's thresholds, in scan order.
pub open spec fn threshold_pixels(
    old: Seq<Color>,
    new: Seq<Color>,
    width: int,
    level: CompressionLevelV1,
) -> Seq<Pixel> {
    threshold_pixels_upto(old, new, width, level, new.len() as int)
}

/// The frame update the threshold-gated codec emits against its stored
/// reconstruction `old`: `Empty` when no pixel exceeds its threshold, else
/// the sparse list of exceeding pixels.
pub open spec fn threshold_delta_view(
    old: FrameView,
    new: FrameView,
    level: CompressionLevelV1,
) -> FrameDataView {
    let ps = threshold_pixels(old.data, new.data, old.width, level);
    if ps.len() == 0 {
        FrameDataView::Empty
    } else {
        FrameDataView::Delta { pixels: ps }
    }
}

/// The threshold delta is empty exactly when no pixel's change exceeds its
/// threshold.
pub proof fn lemma_threshold_empty_iff(
    old: Seq<Color>,
    new: Seq<Color>,
    width: int,
    level: CompressionLevelV1,
    n: int,
)
    requires
        0 <= n <= new.len(),
    ensures
        threshold_pixels_upto(old, new, width, level, n).len() == 0 <==> (forall|i: int|
            0 <= i < n ==> !exceeds_threshold(level, old[i], new[i])),
    decreases n,
{
    if n > 0 {
        lemma_threshold_empty_iff(old, new, width, level, n - 1);
    }
}

/// Every pixel of the threshold delta lies inside the raster.
pub proof fn lemma_threshold_pixels_in_range(
    old: Seq<Color>,
    new: Seq<Color>,
    width: int,
    height: int,
    level: CompressionLevelV1,
    n: int,
)
    requires
        0 <= n <= width * height,
        0 < width,
        width <= usize::MAX,
        height <= usize::MAX,
    ensures
        forall|j: int|
            0 <= j < threshold_pixels_upto(old, new, width, level, n).len()
                ==> (#[trigger] threshold_pixels_upto(old, new, width, level, n)[j]).x < width
                && threshold_pixels_upto(old, new, width, level, n)[j].y < height,
    decreases n,
{
    if n > 0 {
        lemma_threshold_pixels_in_range(old, new, width, height, level, n - 1);
        if exceeds_threshold(level, old[n - 1], new[n - 1]) {
            lemma_mod_division_less_than_divisor(n - 1, width);
            lemma_multiply_divide_lt(n - 1, width, height);
            lemma_div_pos_is_pos(n - 1, width);
            let p = pixel_at(new, width, n - 1);
            assert(p.x < width && p.y < height);
            assert(threshold_pixels_upto(old, new, width, level, n)
                == threshold_pixels_upto(old, new, width, level, n - 1).push(p));
        }
    }
}

/// Computes the threshold-gated delta of `new` against the reconstruction
/// `old`: the scan-ordered list of pixels whose luma or chroma moved past the
/// level's threshold, or `Empty` when none did.
pub fn threshold_delta(old: &Frame, new: &Frame, level: CompressionLevelV1) -> (r: FrameData)
    requires
        old@.wf(),
        new@.wf(),
        old@.width == new@.width,
        old@.height == new@.height,
    ensures
        r@ == threshold_delta_view(old@, new@, level),
        new@.all_in_range(threshold_pixels(old@.data, new@.data, old@.width, level)),
{
    let width = old.width();
    let n = new.data().len();
    proof {
        assert(old@.data.len() == new@.data.len());
    }
    let mut px: Vec<Pixel> = Vec::new();
    let mut i: usize = 0;
    while i < n
        invariant
            i <= n,
            n == new@.data.len(),
            old@.data.len() == n as int,
            old@.wf(),
            new@.wf(),
            old@.width == new@.width,
            old@.height == new@.height,
            width as int == old@.width,
            px@ == threshold_pixels_upto(old@.data, new@.data, old@.width, level, i as int),
        decreases n - i,
    {
        proof {
            assert(width > 0) by {
                if old@.width == 0 {
                    assert(old@.width * old@.height == 0) by (nonlinear_arith)
                        requires
                            old@.width == 0,
                    ;
                }
            }
        }
        let c_old = old.data()[i];
        let c_new = new.data()[i];
        let (oy, ou, ov) = c_old.to_yuv();
        let (ny, nu, nv) = c_new.to_yuv();
        let y_diff = abs_diff_u8(oy, ny) as u16;
        let c_diff = abs_diff_u8(ou, nu) as u16 + abs_diff_u8(ov, nv) as u16;
        if y_diff > level.luminance_treshold() || c_diff > level.chroma_threshold(oy) {
            let x = i % width;
            let y = i / width;
            px.push(Pixel { x, y, color: c_new });
        }
        i = i + 1;
    }
    proof {
        if n > 0 {
            assert(width > 0) by {
                if old@.width == 0 {
                    assert(old@.width * old@.height == 0) by (nonlinear_arith)
                        requires
                            old@.width == 0,
                    ;
                }
            }
            assert(old@.height <= usize::MAX) by {
                assert(old@.data.len() <= usize::MAX);
                if old@.height > usize::MAX {
                    assert(old@.width * old@.height > usize::MAX) by (nonlinear_arith)
                        requires
                            old@.width >= 1,
                            old@.height > usize::MAX,
                    ;
                }
            };
            lemma_threshold_pixels_in_range(
                old@.data,
                new@.data,
                old@.width,
                old@.height,
                level,
                n as int,
            );
        }
    }
    if px.len() == 0 {
        FrameData::Empty
    } else {
        FrameData::Delta(px)
    }
}

/// The absolute difference of two bytes.
fn abs_diff_u8(a: u8, b: u8) -> (r: u8)
    ensures
        r as int == chan_diff(a as int, b as int),
{
    if a >= b {
        a - b
    } else {
        b - a
    }
}

/// The perceptual space a budget-ranked codec measures distance in.
#[derive(Debug, Clone, Copy, PartialEq, Eq, Structural)]
pub enum ColorMetric {
    Yuv,
    Cielab,
}

/// A square.
pub open spec fn sq(x: int) -> int {
    x * x
}

/// Squared Euclidean distance in the luma/chroma space.
pub open spec fn yuv_dist(a: Color, b: Color) -> int {
    sq(yuv_y(a) - yuv_y(b)) + sq(yuv_u(a) - yuv_u(b)) + sq(yuv_v(a) - yuv_v(b))
}

/// Squared Euclidean distance in the CIELAB-like space.
pub open spec fn lab_dist(a: Color, b: Color) -> int {
    sq(lab_l(a) - lab_l(b)) + sq(lab_a(a) - lab_a(b)) + sq(lab_b(a) - lab_b(b))
}

/// Squared distance between two colors under the chosen metric.
pub open spec fn metric_dist(m: ColorMetric, a: Color, b: Color) -> int {
    match m {
        ColorMetric::Yuv => yuv_dist(a, b),
        ColorMetric::Cielab => lab_dist(a, b),
    }
}

/// One pixel the budget-ranked codec may spend budget on: its distance score,
/// its row-major scan index, and the pixel update itself.
#[derive(Debug, Clone, Copy, PartialEq, Eq, Structural)]
#[verifier::ext_equal]
pub struct Candidate {
    pub diff: usize,
    pub idx: usize,
    pub px: Pixel,
}

/// The ranking of candidates: larger distance first, ties broken by smaller
/// scan index; the remaining comparisons only make the order total on the
/// type.
pub open spec fn cand_le(a: Candidate, b: Candidate) -> bool {
    if a.diff != b.diff {
        a.diff > b.diff
    } else if a.idx != b.idx {
        a.idx < b.idx
    } else if a.px.x != b.px.x {
        a.px.x < b.px.x
    } else if a.px.y != b.px.y {
        a.px.y < b.px.y
    } else if a.px.color.r != b.px.color.r {
        a.px.color.r < b.px.color.r
    } else if a.px.color.g != b.px.color.g {
        a.px.color.g < b.px.color.g
    } else {
        a.px.color.b <= b.px.color.b
    }
}

/// The candidate ranking as a relation value.
pub open spec fn cand_order() -> spec_fn(Candidate, Candidate) -> bool {
    |a: Candidate, b: Candidate| cand_le(a, b)
}

/// The candidate ranking is a total order.
pub proof fn lemma_cand_order_total()
    ensures
        vstd::relations::total_ordering(cand_order()),
{
    let r = cand_order();
    assert forall|x: Candidate| #[trigger] r(x, x) by {}
    assert(vstd::relations::reflexive(r));
    assert forall|x: Candidate, y: Candidate| #[trigger] r(x, y) && #[trigger] r(y, x) implies x
        == y by {
        assert(x =~= y);
    }
    assert(vstd::relations::antisymmetric(r));
    assert forall|x: Candidate, y: Candidate, z: Candidate| #[trigger] r(x, y) && #[trigger] r(
        y,
        z,
    ) implies r(x, z) by {}
    assert(vstd::relations::transitive(r));
    assert forall|x: Candidate, y: Candidate| x != y implies #[trigger] r(x, y) || #[trigger] r(
        y,
        x,
    ) by {}
    assert forall|x: Candidate, y: Candidate| #[trigger] r(x, y) || #[trigger] r(y, x) by {}
    assert(vstd::relations::strongly_connected(r));
}

/// The budget codec's candidates over the first `n` pixels: every pixel whose
/// squared distance reaches `floor_plus_one`, scored and in scan order.
pub open spec fn budget_candidates_upto(
    old: Seq<Color>,
    new: Seq<Color>,
    width: int,
    floor_plus_one: int,
    metric: ColorMetric,
    n: int,
) -> Seq<Candidate>
    decreases n,
{
    if n <= 0 {
        Seq::empty()
    } else {
        let rest = budget_candidates_upto(old, new, width, floor_plus_one, metric, n - 1);
        let d = metric_dist(metric, old[n - 1], new[n - 1]);
        if d >= floor_plus_one {
            rest.push(Candidate { diff: d as usize, idx: (n - 1) as usize, px: pixel_at(new, width, n - 1) })
        } else {
            rest
        }
    }
}

/// All of the budget codec's candidates, in scan order.
pub open spec fn budget_candidates(
    old: Seq<Color>,
    new: Seq<Color>,
    width: int,
    floor_plus_one: int,
    metric: ColorMetric,
) -> Seq<Candidate> {
    budget_candidates_upto(old, new, width, floor_plus_one, metric, new.len() as int)
}

/// The pixels of a candidate list, in list order.
pub open spec fn cand_pixels(s: Seq<Candidate>) -> Seq<Pixel> {
    s.map_values(|c: Candidate| c.px)
}

/// The frame update the budget-ranked codec emits against its stored
/// reconstruction `old`: the highest-ranked `k` candidates, ties broken by
/// scan index, or `Empty` when nothing is worth spending on.
pub open spec fn budget_delta_view(
    old: FrameView,
    new: FrameView,
    k: int,
    floor_plus_one: int,
    metric: ColorMetric,
) -> FrameDataView {
    let cands = budget_candidates(old.data, new.data, old.width, floor_plus_one, metric);
    let sorted = cands.sort_by(cand_order());
    let m = if k < sorted.len() {
        k
    } else {
        sorted.len() as int
    };
    let px = cand_pixels(sorted.take(m));
    if px.len() == 0 {
        FrameDataView::Empty
    } else {
        FrameDataView::Delta { pixels: px }
    }
}

/// A budget delta never spends more than its budget.
pub proof fn lemma_budget_len(
    old: FrameView,
    new: FrameView,
    k: int,
    floor_plus_one: int,
    metric: ColorMetric,
)
    requires
        k >= 0,
    ensures
        budget_delta_view(old, new, k, floor_plus_one, metric) matches FrameDataView::Delta {
            pixels,
        } ==> pixels.len() <= k,
{
}

/// The threshold codec emits the empty update exactly when no pixel's change
/// against the stored reconstruction exceeds its threshold.
pub proof fn lemma_threshold_delta_empty_iff(old: FrameView, new: FrameView, level: CompressionLevelV1)
    ensures
        threshold_delta_view(old, new, level) is Empty <==> (forall|i: int|
            0 <= i < new.data.len() ==> !exceeds_threshold(
                level,
                old.data[i],
                new.data[i],
            )),
{
    lemma_threshold_empty_iff(old.data, new.data, old.width, level, new.data.len() as int);
}

/// What the budget codec ranks by: the sorted candidate list is the unique
/// reordering of the candidates that descends by distance, ties broken by
/// ascending scan index; the emitted pixels are its first `k`.
pub proof fn lemma_budget_ranking(
    old: FrameView,
    new: FrameView,
    floor_plus_one: int,
    metric: ColorMetric,
)
    ensures
        ({
            let cands = budget_candidates(old.data, new.data, old.width, floor_plus_one, metric);
            let sorted = cands.sort_by(cand_order());
            &&& sorted.to_multiset() == cands.to_multiset()
            &&& forall|i: int, j: int|
                0 <= i < j < sorted.len() ==> cand_le(#[trigger] sorted[i], #[trigger] sorted[j])
            &&& forall|other: Seq<Candidate>|
                (#[trigger] other.to_multiset() == cands.to_multiset()
                    && vstd::relations::sorted_by(other, cand_order())) ==> other == sorted
        }),
{
    let cands = budget_candidates(old.data, new.data, old.width, floor_plus_one, metric);
    let sorted = cands.sort_by(cand_order());
    lemma_cand_order_total();
    cands.lemma_sort_by_ensures(cand_order());
    assert forall|i: int, j: int| 0 <= i < j < sorted.len() implies cand_le(
        #[trigger] sorted[i],
        #[trigger] sorted[j],
    ) by {
        assert(cand_order()(sorted[i], sorted[j]));
    }
    assert forall|other: Seq<Candidate>|
        #[trigger] other.to_multiset() == cands.to_multiset() && vstd::relations::sorted_by(
            other,
            cand_order(),
        ) implies other == sorted by {
        vstd::seq_lib::lemma_sorted_unique(other, sorted, cand_order());
    }
}

/// The candidate list is exactly the pixels whose distance reaches the noise
/// floor: each candidate records its pixel's true score and position, the
/// list ascends in scan order, and every qualifying pixel is in it.
#[verifier::rlimit(30)]
pub proof fn lemma_budget_candidates_exact(
    old: Seq<Color>,
    new: Seq<Color>,
    width: int,
    floor_plus_one: int,
    metric: ColorMetric,
    n: int,
)
    requires
        0 <= n <= usize::MAX,
    ensures
        ({
            let cands = budget_candidates_upto(old, new, width, floor_plus_one, metric, n);
            &&& forall|j: int|
                0 <= j < cands.len() ==> {
                    let c = #[trigger] cands[j];
                    &&& c.idx < n
                    &&& c.diff == metric_dist(metric, old[c.idx as int], new[c.idx as int]) as usize
                    &&& metric_dist(metric, old[c.idx as int], new[c.idx as int])
                        >= floor_plus_one
                    &&& c.px == pixel_at(new, width, c.idx as int)
                }
            &&& forall|j1: int, j2: int|
                0 <= j1 < j2 < cands.len() ==> (#[trigger] cands[j1]).idx < (
                #[trigger] cands[j2]).idx
            &&& forall|i: int|
                0 <= i < n && metric_dist(metric, old[i], new[i]) >= floor_plus_one
                    ==> exists|j: int|
                    0 <= j < cands.len() && (#[trigger] cands[j]).idx == i
        }),
    decreases n,
{
    if n > 0 {
        lemma_budget_candidates_exact(old, new, width, floor_plus_one, metric, n - 1);
        let prev = budget_candidates_upto(old, new, width, floor_plus_one, metric, n - 1);
        let cands = budget_candidates_upto(old, new, width, floor_plus_one, metric, n);
        let d = metric_dist(metric, old[n - 1], new[n - 1]);
        if d >= floor_plus_one {
            assert(cands[cands.len() - 1].idx == n - 1);
            assert forall|i: int|
                0 <= i < n && metric_dist(metric, old[i], new[i])
                    >= floor_plus_one implies exists|j: int|
                0 <= j < cands.len() && (#[trigger] cands[j]).idx == i by {
                if i < n - 1 {
                    let j = choose|j: int| 0 <= j < prev.len() && (#[trigger] prev[j]).idx == i;
                    assert(cands[j].idx == i);
                } else {
                    assert(cands[cands.len() - 1].idx == i);
                }
            }
        } else {
            assert forall|i: int|
                0 <= i < n && metric_dist(metric, old[i], new[i])
                    >= floor_plus_one implies exists|j: int|
                0 <= j < cands.len() && (#[trigger] cands[j]).idx == i by {
                let j = choose|j: int| 0 <= j < prev.len() && (#[trigger] prev[j]).idx == i;
                assert(cands[j].idx == i);
            }
        }
    }
}

/// Squared difference of two channel values.
fn sq_diff(a: u8, b: u8) -> (r: u32)
    ensures
        r as int == sq(a as int - b as int),
        r <= 65025,
{
    let d = abs_diff_u8(a, b);
    proof {
        assert(d as int * d as int <= 65025 && (a as int - b as int) * (a as int - b as int) == d
            as int * d as int) by (nonlinear_arith)
            requires
                0 <= d as int <= 255,
                d as int == a as int - b as int || d as int == b as int - a as int,
        ;
    }
    d as u32 * d as u32
}

/// Squared distance between two colors under the chosen metric.
fn metric_dist_exec(m: ColorMetric, a: &Color, b: &Color) -> (r: u32)
    ensures
        r as int == metric_dist(m, *a, *b),
        r <= 195075,
{
    match m {
        ColorMetric::Yuv => {
            let (ay, au, av) = a.to_yuv();
            let (by, bu, bv) = b.to_yuv();
            sq_diff(ay, by) + sq_diff(au, bu) + sq_diff(av, bv)
        },
        ColorMetric::Cielab => {
            let (al, aa, ab) = a.to_cielab();
            let (bl, ba, bb) = b.to_cielab();
            sq_diff(al, bl) + sq_diff(aa, ba) + sq_diff(ab, bb)
        },
    }
}

/// Whether candidate `a` ranks at or before candidate `b`.
fn cand_le_exec(a: &Candidate, b: &Candidate) -> (r: bool)
    ensures
        r == cand_le(*a, *b),
{
    if a.diff != b.diff {
        a.diff > b.diff
    } else if a.idx != b.idx {
        a.idx < b.idx
    } else if a.px.x != b.px.x {
        a.px.x < b.px.x
    } else if a.px.y != b.px.y {
        a.px.y < b.px.y
    } else if a.px.color.r != b.px.color.r {
        a.px.color.r < b.px.color.r
    } else if a.px.color.g != b.px.color.g {
        a.px.color.g < b.px.color.g
    } else {
        a.px.color.b <= b.px.color.b
    }
}

/// Exchanging two positions of a list keeps its multiset of elements.
proof fn lemma_swap_multiset(s: Seq<Candidate>, p: int, q: int)
    requires
        0 <= p < q < s.len(),
    ensures
        s.update(p, s[q]).update(q, s[p]).to_multiset() == s.to_multiset(),
{
    broadcast use vstd::seq_lib::group_to_multiset_ensures;

    let t = s.update(p, s[q]);
    assert(t.to_multiset() == s.to_multiset().insert(s[q]).remove(s[p]));
    assert(t[q] == s[q]);
    assert(t.update(q, s[p]).to_multiset() == t.to_multiset().insert(s[p]).remove(t[q]));
    assert_multisets_equal!(
        s.to_multiset().insert(s[q]).remove(s[p]).insert(s[p]).remove(s[q]),
        s.to_multiset()
    );
}

/// Sorts candidates by their ranking, by insertion; the result is a
/// permutation of the input.
fn sort_candidates(v: &mut Vec<Candidate>)
    ensures
        final(v)@.len() == old(v)@.len(),
        final(v)@.to_multiset() == old(v)@.to_multiset(),
        forall|a: int, b: int|
            0 <= a < b < final(v)@.len() ==> cand_le(
                #[trigger] final(v)@[a],
                #[trigger] final(v)@[b],
            ),
{
    let ghost orig = v@;
    let n = v.len();
    if n <= 1 {
        return ;
    }
    let mut i: usize = 1;
    while i < n
        invariant
            1 <= i <= n,
            n == v@.len(),
            v@.len() == orig.len(),
            v@.to_multiset() == orig.to_multiset(),
            forall|a: int, b: int|
                0 <= a < b < i as int ==> cand_le(#[trigger] v@[a], #[trigger] v@[b]),
        decreases n - i,
    {
        let mut j: usize = i;
        while j > 0 && !cand_le_exec(&v[j - 1], &v[j])
            invariant
                0 <= j <= i < n,
                n == v@.len(),
                v@.len() == orig.len(),
                v@.to_multiset() == orig.to_multiset(),
                forall|a: int, b: int|
                    0 <= a < b <= i as int && b != j as int ==> cand_le(
                        #[trigger] v@[a],
                        #[trigger] v@[b],
                    ),
            decreases j,
        {
            let ghost pre = v@;
            let x = v[j - 1];
            let y = v[j];
            proof {
                assert(cand_le(y, x) || cand_le(x, y));
            }
            v.set(j - 1, y);
            v.set(j, x);
            proof {
                lemma_swap_multiset(pre, j - 1, j as int);
                assert(v@ == pre.update(j - 1, pre[j as int]).update(j as int, pre[j - 1]));
            }
            j = j - 1;
        }
        proof {
            assert forall|a: int, b: int| 0 <= a < b <= i as int implies cand_le(
                #[trigger] v@[a],
                #[trigger] v@[b],
            ) by {
                if b == j as int {
                    if a < j - 1 {
                        assert(cand_le(v@[a], v@[j - 1]));
                        assert(cand_le(v@[j - 1], v@[j as int]));
                    }
                }
            }
        }
        i = i + 1;
    }
}

/// Every candidate's pixel lies inside the raster.
proof fn lemma_budget_candidates_in_range(
    old: Seq<Color>,
    new: Seq<Color>,
    width: int,
    height: int,
    floor_plus_one: int,
    metric: ColorMetric,
    n: int,
)
    requires
        0 <= n <= width * height,
        0 < width,
        width <= usize::MAX,
        height <= usize::MAX,
    ensures
        forall|j: int|
            0 <= j < budget_candidates_upto(old, new, width, floor_plus_one, metric, n).len()
                ==> (#[trigger] budget_candidates_upto(old, new, width, floor_plus_one, metric, n)[j]).px.x
                < width && budget_candidates_upto(old, new, width, floor_plus_one, metric, n)[j].px.y
                < height,
    decreases n,
{
    if n > 0 {
        lemma_budget_candidates_in_range(old, new, width, height, floor_plus_one, metric, n - 1);
        if metric_dist(metric, old[n - 1], new[n - 1]) >= floor_plus_one {
            lemma_mod_division_less_than_divisor(n - 1, width);
            lemma_multiply_divide_lt(n - 1, width, height);
            lemma_div_pos_is_pos(n - 1, width);
            let p = pixel_at(new, width, n - 1);
            assert(p.x < width && p.y < height);
            assert(budget_candidates_upto(old, new, width, floor_plus_one, metric, n)
                == budget_candidates_upto(old, new, width, floor_plus_one, metric, n - 1).push(
                Candidate { diff: metric_dist(metric, old[n - 1], new[n - 1]) as usize, idx: (n - 1) as usize, px: p },
            ));
        }
    }
}

/// Computes the budget-ranked delta of `new` against the reconstruction
/// `old`: every pixel whose squared distance under `metric` reaches
/// `floor_plus_one` is scored, the highest-ranked `k` are kept (ties broken
/// by scan order), and `Empty` is emitted when none remain.
pub fn budget_delta(
    old: &Frame,
    new: &Frame,
    k: usize,
    floor_plus_one: usize,
    metric: ColorMetric,
) -> (r: FrameData)
    requires
        old@.wf(),
        new@.wf(),
        old@.width == new@.width,
        old@.height == new@.height,
    ensures
        r@ == budget_delta_view(old@, new@, k as int, floor_plus_one as int, metric),
        r@ matches FrameDataView::Delta { pixels } ==> new@.all_in_range(pixels),
{
    let width = old.width();
    let n = new.data().len();
    proof {
        assert(old@.data.len() == new@.data.len());
    }
    let mut cands: Vec<Candidate> = Vec::new();
    let mut i: usize = 0;
    while i < n
        invariant
            i <= n,
            n == new@.data.len(),
            old@.data.len() == n as int,
            old@.wf(),
            new@.wf(),
            old@.width == new@.width,
            old@.height == new@.height,
            width as int == old@.width,
            cands@ == budget_candidates_upto(
                old@.data,
                new@.data,
                old@.width,
                floor_plus_one as int,
                metric,
                i as int,
            ),
        decreases n - i,
    {
        proof {
            assert(width > 0) by {
                if old@.width == 0 {
                    assert(old@.width * old@.height == 0) by (nonlinear_arith)
                        requires
                            old@.width == 0,
                    ;
                }
            }
        }
        let c_old = old.data()[i];
        let c_new = new.data()[i];
        let d = metric_dist_exec(metric, &c_old, &c_new);
        if d as usize >= floor_plus_one {
            let x = i % width;
            let y = i / width;
            cands.push(Candidate { diff: d as usize, idx: i, px: Pixel { x, y, color: c_new } });
        }
        i = i + 1;
    }
    let ghost spec_cands = budget_candidates(
        old@.data,
        new@.data,
        old@.width,
        floor_plus_one as int,
        metric,
    );
    proof {
        if n > 0 {
            assert(width > 0) by {
                if old@.width == 0 {
                    assert(old@.width * old@.height == 0) by (nonlinear_arith)
                        requires
                            old@.width == 0,
                    ;
                }
            }
            assert(old@.height <= usize::MAX) by {
                assert(old@.data.len() <= usize::MAX);
                if old@.height > usize::MAX {
                    assert(old@.width * old@.height > usize::MAX) by (nonlinear_arith)
                        requires
                            old@.width >= 1,
                            old@.height > usize::MAX,
                    ;
                }
            };
            lemma_budget_candidates_in_range(
                old@.data,
                new@.data,
                old@.width,
                old@.height,
                floor_plus_one as int,
                metric,
                n as int,
            );
        }
    }
    sort_candidates(&mut cands);
    proof {
        lemma_cand_order_total();
        spec_cands.lemma_sort_by_ensures(cand_order());
        assert forall|a: int, b: int|
            0 <= a < b < cands@.len() implies #[trigger] (cand_order()(cands@[a], cands@[b])) by {
            assert(cand_le(cands@[a], cands@[b]));
        }
        assert(vstd::relations::sorted_by(cands@, cand_order()));
        vstd::seq_lib::lemma_sorted_unique(cands@, spec_cands.sort_by(cand_order()), cand_order());
        assert(cands@ == spec_cands.sort_by(cand_order()));
        // in-range transfers through the permutation
        broadcast use vstd::seq_lib::group_to_multiset_ensures;

        assert forall|j: int| 0 <= j < cands@.len() implies (#[trigger] cands@[j]).px.x
            < old@.width && cands@[j].px.y < old@.height by {
            assert(cands@.contains(cands@[j]));
            assert(cands@.to_multiset().count(cands@[j]) > 0);
            assert(spec_cands.to_multiset().count(cands@[j]) > 0);
            assert(spec_cands.contains(cands@[j]));
            let w = choose|w: int| 0 <= w < spec_cands.len() && spec_cands[w] == cands@[j];
            assert(spec_cands[w].px.x < old@.width && spec_cands[w].px.y < old@.height);
        }
    }
    let m = if k < cands.len() {
        k
    } else {
        cands.len()
    };
    let mut px: Vec<Pixel> = Vec::new();
    let mut j: usize = 0;
    while j < m
        invariant
            j <= m,
            m as int <= cands@.len(),
            px@ == cand_pixels(cands@.take(j as int)),
        decreases m - j,
    {
        px.push(cands[j].px);
        proof {
            assert(cands@.take(j + 1).drop_last() =~= cands@.take(j as int));
            assert(px@ =~= cand_pixels(cands@.take(j + 1)));
        }
        j = j + 1;
    }
    proof {
        assert(px@ == cand_pixels(cands@.take(m as int)));
        assert forall|t: int| 0 <= t < px@.len() implies new@.in_range(#[trigger] px@[t]) by {
            assert(px@[t] == cands@[t].px);
        }
    }
    if px.len() == 0 {
        FrameData::Empty
    } else {
        FrameData::Delta(px)
    }
}

} // verus!
