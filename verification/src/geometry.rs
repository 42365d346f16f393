//! Geometry of the layout: how a split divides its area among its children,
//! where each pane lands, and which pane lies in a direction from another.

use vstd::prelude::*;

use crate::base::{FocusMoveDirection, SplitDirection};
use crate::layout::{DEFAULT_CHILD_WEIGHT, Rect};

verus! {

/// The weight a child effectively takes: at least one.
pub open spec fn effective_weight(w: u16) -> int {
    if w >= 1 {
        w as int
    } else {
        1
    }
}

/// Sum of the effective weights.
pub open spec fn effective_sum(ws: Seq<u16>) -> int
    decreases ws.len(),
{
    if ws.len() == 0 {
        0
    } else {
        effective_sum(ws.drop_last()) + effective_weight(ws.last())
    }
}

/// The share of `total` that child `i` gets, rounded down.
pub open spec fn share(total: u16, ws: Seq<u16>, i: int) -> int {
    total * effective_weight(ws[i]) / effective_sum(ws)
}

/// Sum of the shares of the first `n` children.
pub open spec fn shares_before(total: u16, ws: Seq<u16>, n: int) -> int
    decreases n,
{
    if n <= 0 {
        0
    } else {
        shares_before(total, ws, n - 1) + share(total, ws, n - 1)
    }
}

/// How `total` cells are divided among children of weights `ws`: each child
/// but the last gets its proportional share rounded down, the last gets the
/// rest.
pub open spec fn distribution(total: u16, ws: Seq<u16>) -> Seq<int> {
    Seq::new(
        ws.len(),
        |i: int|
            if i == ws.len() - 1 {
                total - shares_before(total, ws, ws.len() - 1)
            } else {
                share(total, ws, i)
            },
    )
}

/// Sum of the first `n` entries.
pub open spec fn sum_prefix(xs: Seq<int>, n: int) -> int
    decreases n,
{
    if n <= 0 {
        0
    } else {
        sum_prefix(xs, n - 1) + xs[n - 1]
    }
}

proof fn lemma_effective_sum_prefix(ws: Seq<u16>, n: int)
    requires
        0 <= n <= ws.len(),
    ensures
        0 <= effective_sum(ws.take(n)) <= effective_sum(ws),
        n < ws.len() ==> effective_sum(ws.take(n + 1)) == effective_sum(ws.take(n)) + effective_weight(ws[n]),
    decreases ws.len() - n,
{
    if n < ws.len() {
        assert(ws.take(n + 1).drop_last() =~= ws.take(n));
        lemma_effective_sum_prefix(ws, n + 1);
    } else {
        assert(ws.take(n) =~= ws);
    }
    lemma_effective_sum_nonneg(ws.take(n));
}

proof fn lemma_effective_sum_nonneg(ws: Seq<u16>)
    ensures
        effective_sum(ws) >= ws.len(),
    decreases ws.len(),
{
    if ws.len() > 0 {
        lemma_effective_sum_nonneg(ws.drop_last());
    }
}

/// The shares of the first `n` children never exceed `total`.
proof fn lemma_shares_before_bound(total: u16, ws: Seq<u16>, n: int)
    requires
        0 <= n <= ws.len(),
        ws.len() > 0,
    ensures
        effective_sum(ws) * shares_before(total, ws, n) <= total * effective_sum(ws.take(n)),
        0 <= shares_before(total, ws, n) <= total,
    decreases n,
{
    let s = effective_sum(ws);
    lemma_effective_sum_nonneg(ws);
    lemma_effective_sum_prefix(ws, n);
    if n > 0 {
        lemma_shares_before_bound(total, ws, n - 1);
        lemma_effective_sum_prefix(ws, n - 1);
        let e = effective_weight(ws[n - 1]);
        let a = total * e;
        assert(total * e >= 0) by (nonlinear_arith)
            requires
                total >= 0,
                e >= 1,
        ;
        vstd::arithmetic::div_mod::lemma_fundamental_div_mod(a, s);
        vstd::arithmetic::div_mod::lemma_remainder_lower(a, s);
        vstd::arithmetic::div_mod::lemma_div_pos_is_pos(a, s);
        let sb = shares_before(total, ws, n - 1);
        let q = a / s;
        let p = effective_sum(ws.take(n - 1));
        assert(s * (sb + q) <= total * (p + effective_weight(ws[n - 1]))) by (nonlinear_arith)
            requires
                s * sb <= total * p,
                s * q <= a,
                a == total * effective_weight(ws[n - 1]),
        ;
    }
    let sb = shares_before(total, ws, n);
    let p = effective_sum(ws.take(n));
    assert(sb <= total) by (nonlinear_arith)
        requires
            s * sb <= total * p,
            p <= s,
            s > 0,
            total >= 0,
    ;
    assert(sb >= 0) by {
        if n > 0 {
            let e = effective_weight(ws[n - 1]);
            let a = total * e;
            assert(total * e >= 0) by (nonlinear_arith)
                requires
                    total >= 0,
                    e >= 1,
            ;
            vstd::arithmetic::div_mod::lemma_div_pos_is_pos(a, s);
            lemma_shares_before_bound(total, ws, n - 1);
        }
    }
}

/// The division of an extent among the children covers it exactly.
pub proof fn law_distribution_covers_total(total: u16, ws: Seq<u16>)
    requires
        ws.len() > 0,
    ensures
        sum_prefix(distribution(total, ws), ws.len() as int) == total,
        forall|i: int| 0 <= i < ws.len() ==> 0 <= #[trigger] distribution(total, ws)[i] <= total,
{
    let d = distribution(total, ws);
    lemma_shares_before_bound(total, ws, ws.len() - 1);
    assert forall|n: int| 0 <= n <= ws.len() - 1 implies sum_prefix(d, n) == shares_before(total, ws, n) by {
        lemma_sum_prefix_shares(total, ws, n);
    }
    let m = ws.len() - 1;
    lemma_sum_prefix_shares(total, ws, m);
    assert(sum_prefix(d, ws.len() as int) == sum_prefix(d, m) + d[m]);
    assert forall|i: int| 0 <= i < ws.len() implies 0 <= #[trigger] distribution(total, ws)[i] <= total by {
        lemma_effective_sum_nonneg(ws);
        if i < ws.len() - 1 {
            lemma_shares_before_bound(total, ws, i + 1);
            lemma_shares_before_bound(total, ws, i);
            assert(shares_before(total, ws, i + 1) == shares_before(total, ws, i) + share(total, ws, i));
            let e = effective_weight(ws[i]);
            assert(total * e >= 0) by (nonlinear_arith)
                requires
                    total >= 0,
                    e >= 1,
            ;
            vstd::arithmetic::div_mod::lemma_div_pos_is_pos(total * e, effective_sum(ws));
            assert(distribution(total, ws)[i] == share(total, ws, i));
        } else {
            assert(distribution(total, ws)[i] == total - shares_before(total, ws, m));
        }
    }
}

proof fn lemma_sum_prefix_shares(total: u16, ws: Seq<u16>, n: int)
    requires
        0 <= n <= ws.len() - 1,
    ensures
        sum_prefix(distribution(total, ws), n) == shares_before(total, ws, n),
    decreases n,
{
    if n > 0 {
        lemma_sum_prefix_shares(total, ws, n - 1);
    }
}

/// Divides `total` cells among children of weights `weights`.
pub fn distribute_extent(total: u16, weights: &Vec<u16>) -> (r: Vec<u16>)
    requires
        weights@.len() < 65536,
    ensures
        r@.len() == weights@.len(),
        forall|i: int| 0 <= i < r@.len() ==> r@[i] as int == #[trigger] distribution(total, weights@)[i],
{
    let n = weights.len();
    let mut r: Vec<u16> = Vec::new();
    if n == 0 {
        return r;
    }
    let ghost ws = weights@;
    let mut sum_weights: u32 = 0;
    let mut i: usize = 0;
    while i < n
        invariant
            0 <= i <= n,
            n == ws.len(),
            ws == weights@,
            n < 65536,
            sum_weights as int == effective_sum(ws.take(i as int)),
            sum_weights <= 65535 * i,
        decreases n - i,
    {
        proof {
            lemma_effective_sum_prefix(ws, i as int);
        }
        let w = weights[i];
        let eff: u32 = if w >= DEFAULT_CHILD_WEIGHT { w as u32 } else { 1 };
        sum_weights = sum_weights + eff;
        i = i + 1;
    }
    proof {
        assert(ws.take(n as int) =~= ws);
        lemma_effective_sum_nonneg(ws);
    }
    let total_u32 = total as u32;
    let mut consumed: u32 = 0;
    let mut index: usize = 0;
    while index < n
        invariant
            0 <= index <= n,
            n == ws.len(),
            ws == weights@,
            n > 0,
            sum_weights as int == effective_sum(ws),
            sum_weights > 0,
            total_u32 == total,
            r@.len() == index,
            index < n ==> consumed as int == shares_before(total, ws, index as int),
            index < n ==> consumed <= total,
            forall|j: int| 0 <= j < index ==> r@[j] as int == #[trigger] distribution(total, ws)[j],
        decreases n - index,
    {
        proof {
            lemma_shares_before_bound(total, ws, index as int);
        }
        if index + 1 == n {
            let rest = total_u32 - consumed;
            r.push(rest as u16);
        } else {
            let w = weights[index];
            let eff: u32 = if w >= DEFAULT_CHILD_WEIGHT { w as u32 } else { 1 };
            assert(total_u32 * eff <= 65535 * 65535) by (nonlinear_arith)
                requires
                    total_u32 <= 65535,
                    eff <= 65535,
            ;
            let share_now = total_u32 * eff / sum_weights;
            proof {
                lemma_shares_before_bound(total, ws, index + 1);
                assert(share_now as int == share(total, ws, index as int));
                assert(shares_before(total, ws, index + 1) == shares_before(total, ws, index as int) + share(total, ws, index as int));
            }
            r.push(share_now as u16);
            consumed = consumed + share_now;
        }
        index = index + 1;
    }
    r
}

/// `v` clamped to the largest `u16`, as a saturating addition gives it.
pub open spec fn saturate(v: int) -> u16 {
    if v > 65535 {
        65535
    } else {
        v as u16
    }
}

/// The rectangles of the children of a split of direction `direction` over
/// `area`, with weights `ws`: a horizontal split stacks them from the top, a
/// vertical split sets them side by side from the left.
pub open spec fn split_rects_spec(area: Rect, direction: SplitDirection, ws: Seq<u16>) -> Seq<Rect> {
    match direction {
        SplitDirection::Horizontal => {
            let d = distribution(area.height, ws);
            Seq::new(
                ws.len(),
                |i: int|
                    Rect {
                        x: area.x,
                        y: saturate(area.y + sum_prefix(d, i)),
                        width: area.width,
                        height: d[i] as u16,
                    },
            )
        },
        SplitDirection::Vertical => {
            let d = distribution(area.width, ws);
            Seq::new(
                ws.len(),
                |i: int|
                    Rect {
                        x: saturate(area.x + sum_prefix(d, i)),
                        y: area.y,
                        width: d[i] as u16,
                        height: area.height,
                    },
            )
        },
    }
}

/// Entries of the distribution are never negative.
proof fn lemma_distribution_nonneg(total: u16, ws: Seq<u16>, n: int)
    requires
        ws.len() > 0,
        0 <= n <= ws.len(),
    ensures
        sum_prefix(distribution(total, ws), n) >= 0,
    decreases n,
{
    law_distribution_covers_total(total, ws);
    if n > 0 {
        lemma_distribution_nonneg(total, ws, n - 1);
        assert(distribution(total, ws)[n - 1] >= 0);
    }
}

/// Divides `area` among split children of weights `weights`.
pub fn split_rects(area: Rect, direction: SplitDirection, weights: &Vec<u16>) -> (r: Vec<Rect>)
    requires
        weights@.len() < 65536,
    ensures
        r@ == split_rects_spec(area, direction, weights@),
{
    let ghost ws = weights@;
    let horizontal = match direction {
        SplitDirection::Horizontal => true,
        SplitDirection::Vertical => false,
    };
    let extents = if horizontal {
        distribute_extent(area.height, weights)
    } else {
        distribute_extent(area.width, weights)
    };
    let ghost total: u16 = if horizontal { area.height } else { area.width };
    let ghost d = distribution(total, ws);
    let mut offset: u16 = if horizontal { area.y } else { area.x };
    let ghost start: u16 = offset;
    let mut out: Vec<Rect> = Vec::new();
    let mut i: usize = 0;
    while i < extents.len()
        invariant
            0 <= i <= extents.len(),
            extents@.len() == ws.len(),
            ws == weights@,
            forall|j: int| 0 <= j < extents@.len() ==> extents@[j] as int == #[trigger] d[j],
            d == distribution(total, ws),
            horizontal <==> direction == SplitDirection::Horizontal,
            total == (if horizontal { area.height } else { area.width }),
            start == (if horizontal { area.y } else { area.x }),
            offset == saturate(start + sum_prefix(d, i as int)),
            out@.len() == i,
            forall|j: int| 0 <= j < i ==> #[trigger] out@[j] == split_rects_spec(area, direction, ws)[j],
        decreases extents.len() - i,
    {
        let extent = extents[i];
        let rect = if horizontal {
            Rect { x: area.x, y: offset, width: area.width, height: extent }
        } else {
            Rect { x: offset, y: area.y, width: extent, height: area.height }
        };
        proof {
            lemma_distribution_nonneg(total, ws, i as int);
            law_distribution_covers_total(total, ws);
            assert(d[i as int] == extent as int);
        }
        out.push(rect);
        offset = offset.saturating_add(extent);
        i = i + 1;
    }
    proof {
        assert(out@ =~= split_rects_spec(area, direction, ws));
    }
    out
}

/// The column just right of `r`, saturated at the largest column.
pub open spec fn right_edge(r: Rect) -> int {
    saturate(r.x + r.width) as int
}

/// The row just below `r`, saturated at the largest row.
pub open spec fn bottom_edge(r: Rect) -> int {
    saturate(r.y + r.height) as int
}

/// The column ranges of `a` and `b` overlap.
pub open spec fn overlap_columns(a: Rect, b: Rect) -> bool {
    a.x < b.x + b.width && b.x < a.x + a.width
}

/// The row ranges of `a` and `b` overlap.
pub open spec fn overlap_rows(a: Rect, b: Rect) -> bool {
    a.y < b.y + b.height && b.y < a.y + a.height
}

/// `candidate` lies wholly on the `direction` side of `current` and faces it.
pub open spec fn in_direction(current: Rect, candidate: Rect, direction: FocusMoveDirection) -> bool {
    match direction {
        FocusMoveDirection::Left => right_edge(candidate) <= current.x && overlap_rows(current, candidate),
        FocusMoveDirection::Right => right_edge(current) <= candidate.x && overlap_rows(current, candidate),
        FocusMoveDirection::Up => bottom_edge(candidate) <= current.y && overlap_columns(current, candidate),
        FocusMoveDirection::Down => bottom_edge(current) <= candidate.y && overlap_columns(current, candidate),
    }
}

/// Twice the distance between the centres of two segments.
pub open spec fn center_gap(start_a: int, len_a: int, start_b: int, len_b: int) -> int {
    let d = (2 * start_a + len_a) - (2 * start_b + len_b);
    if d < 0 {
        -d
    } else {
        d
    }
}

/// How good a focus target `candidate` is, smaller being better: the gap
/// between the two, then how far their centres are apart across the
/// direction, then the candidate's position across the direction.
pub open spec fn score(current: Rect, candidate: Rect, direction: FocusMoveDirection) -> (int, int, int) {
    let primary = match direction {
        FocusMoveDirection::Left => current.x - right_edge(candidate),
        FocusMoveDirection::Right => candidate.x - right_edge(current),
        FocusMoveDirection::Up => current.y - bottom_edge(candidate),
        FocusMoveDirection::Down => candidate.y - bottom_edge(current),
    };
    match direction {
        FocusMoveDirection::Left | FocusMoveDirection::Right => (
            primary,
            center_gap(current.y as int, current.height as int, candidate.y as int, candidate.height as int),
            candidate.y as int,
        ),
        FocusMoveDirection::Up | FocusMoveDirection::Down => (
            primary,
            center_gap(current.x as int, current.width as int, candidate.x as int, candidate.width as int),
            candidate.x as int,
        ),
    }
}

/// Lexicographic order on scores.
pub open spec fn score_lt(a: (int, int, int), b: (int, int, int)) -> bool {
    a.0 < b.0 || (a.0 == b.0 && (a.1 < b.1 || (a.1 == b.1 && a.2 < b.2)))
}

fn overlaps_horizontally(a: Rect, b: Rect) -> (r: bool)
    ensures
        r == overlap_columns(a, b),
{
    let a_start = a.x as u32;
    let a_end = a_start + (a.width as u32);
    let b_start = b.x as u32;
    let b_end = b_start + (b.width as u32);
    a_start < b_end && b_start < a_end
}

fn overlaps_vertically(a: Rect, b: Rect) -> (r: bool)
    ensures
        r == overlap_rows(a, b),
{
    let a_start = a.y as u32;
    let a_end = a_start + (a.height as u32);
    let b_start = b.y as u32;
    let b_end = b_start + (b.height as u32);
    a_start < b_end && b_start < a_end
}

fn rect_right(rect: Rect) -> (r: u16)
    ensures
        r == right_edge(rect),
{
    rect.x.saturating_add(rect.width)
}

fn rect_bottom(rect: Rect) -> (r: u16)
    ensures
        r == bottom_edge(rect),
{
    rect.y.saturating_add(rect.height)
}

fn center_distance(start_a: u16, len_a: u16, start_b: u16, len_b: u16) -> (r: i32)
    ensures
        r == center_gap(start_a as int, len_a as int, start_b as int, len_b as int),
{
    let center_a = (start_a as i32) * 2 + (len_a as i32);
    let center_b = (start_b as i32) * 2 + (len_b as i32);
    let d = center_a - center_b;
    if d < 0 {
        -d
    } else {
        d
    }
}

/// Whether `candidate` lies in `direction` from `current`.
pub fn is_in_direction(current: Rect, candidate: Rect, direction: FocusMoveDirection) -> (r: bool)
    ensures
        r == in_direction(current, candidate, direction),
{
    match direction {
        FocusMoveDirection::Left => rect_right(candidate) <= current.x && overlaps_vertically(current, candidate),
        FocusMoveDirection::Right => rect_right(current) <= candidate.x && overlaps_vertically(current, candidate),
        FocusMoveDirection::Up => rect_bottom(candidate) <= current.y && overlaps_horizontally(current, candidate),
        FocusMoveDirection::Down => rect_bottom(current) <= candidate.y && overlaps_horizontally(current, candidate),
    }
}

/// The score of `candidate` as a focus target in `direction` from `current`.
pub fn focus_score(current: Rect, candidate: Rect, direction: FocusMoveDirection) -> (r: (i32, i32, u16))
    ensures
        (r.0 as int, r.1 as int, r.2 as int) == score(current, candidate, direction),
{
    let primary: i32 = match direction {
        FocusMoveDirection::Left => (current.x as i32) - (rect_right(candidate) as i32),
        FocusMoveDirection::Right => (candidate.x as i32) - (rect_right(current) as i32),
        FocusMoveDirection::Up => (current.y as i32) - (rect_bottom(candidate) as i32),
        FocusMoveDirection::Down => (candidate.y as i32) - (rect_bottom(current) as i32),
    };
    match direction {
        FocusMoveDirection::Left | FocusMoveDirection::Right => (
            primary,
            center_distance(current.y, current.height, candidate.y, candidate.height),
            candidate.y,
        ),
        FocusMoveDirection::Up | FocusMoveDirection::Down => (
            primary,
            center_distance(current.x, current.width, candidate.x, candidate.width),
            candidate.x,
        ),
    }
}

/// Whether score `a` is smaller than score `b`.
pub fn score_less(a: (i32, i32, u16), b: (i32, i32, u16)) -> (r: bool)
    ensures
        r == score_lt((a.0 as int, a.1 as int, a.2 as int), (b.0 as int, b.1 as int, b.2 as int)),
{
    a.0 < b.0 || (a.0 == b.0 && (a.1 < b.1 || (a.1 == b.1 && a.2 < b.2)))
}


/// Cell (`px`, `py`) lies in rectangle `r`.
pub open spec fn rect_holds(r: Rect, px: int, py: int) -> bool {
    &&& r.x <= px < r.x + r.width
    &&& r.y <= py < r.y + r.height
}

/// The far edges of `r` stay within the coordinates a `u16` holds.
pub open spec fn fits_coordinates(r: Rect) -> bool {
    &&& r.x + r.width <= u16::MAX
    &&& r.y + r.height <= u16::MAX
}

/// How many of the first `n` rectangles hold cell (`px`, `py`).
pub open spec fn rect_count(rects: Seq<Rect>, n: int, px: int, py: int) -> int
    decreases n,
{
    if n <= 0 {
        0
    } else {
        rect_count(rects, n - 1, px, py) + if rect_holds(rects[n - 1], px, py) {
            1int
        } else {
            0int
        }
    }
}

/// Sums of the first entries of a distribution grow with their number.
proof fn lemma_sum_prefix_monotone(total: u16, ws: Seq<u16>, n: int, m: int)
    requires
        ws.len() > 0,
        0 <= n <= m <= ws.len(),
    ensures
        sum_prefix(distribution(total, ws), n) <= sum_prefix(distribution(total, ws), m),
    decreases m,
{
    law_distribution_covers_total(total, ws);
    if n < m {
        lemma_sum_prefix_monotone(total, ws, n, m - 1);
        assert(distribution(total, ws)[m - 1] >= 0);
    }
}

/// Every rectangle of a split lies within the split's, and the first `n` of
/// them hold a cell exactly when the cell lies in the part of the split's
/// rectangle they cover together.
proof fn lemma_split_rects_count(area: Rect, direction: SplitDirection, ws: Seq<u16>, n: int, px: int, py: int)
    requires
        ws.len() > 0,
        0 <= n <= ws.len(),
        fits_coordinates(area),
    ensures
        rect_count(split_rects_spec(area, direction, ws), n, px, py) == (match direction {
            SplitDirection::Vertical => if area.y <= py < area.y + area.height && area.x <= px < area.x + sum_prefix(
                distribution(area.width, ws),
                n,
            ) {
                1int
            } else {
                0int
            },
            SplitDirection::Horizontal => if area.x <= px < area.x + area.width && area.y <= py < area.y + sum_prefix(
                distribution(area.height, ws),
                n,
            ) {
                1int
            } else {
                0int
            },
        }),
    decreases n,
{
    if n > 0 {
        lemma_split_rects_count(area, direction, ws, n - 1, px, py);
        let rects = split_rects_spec(area, direction, ws);
        match direction {
            SplitDirection::Vertical => {
                let d = distribution(area.width, ws);
                law_distribution_covers_total(area.width, ws);
                lemma_sum_prefix_monotone(area.width, ws, n - 1, ws.len() as int);
                lemma_distribution_nonneg(area.width, ws, n - 1);
                assert(d[n - 1] >= 0);
                assert(rects[n - 1].x == area.x + sum_prefix(d, n - 1));
                assert(rects[n - 1].width == d[n - 1]);
            },
            SplitDirection::Horizontal => {
                let d = distribution(area.height, ws);
                law_distribution_covers_total(area.height, ws);
                lemma_sum_prefix_monotone(area.height, ws, n - 1, ws.len() as int);
                lemma_distribution_nonneg(area.height, ws, n - 1);
                assert(d[n - 1] >= 0);
                assert(rects[n - 1].y == area.y + sum_prefix(d, n - 1));
                assert(rects[n - 1].height == d[n - 1]);
            },
        }
    }
}

/// The rectangles of a split divide its rectangle: each cell of it lies in
/// exactly one of them, a cell outside it in none, and each stays within
/// the coordinates.
pub proof fn law_split_rects_partition(area: Rect, direction: SplitDirection, ws: Seq<u16>, px: int, py: int)
    requires
        ws.len() > 0,
        fits_coordinates(area),
    ensures
        rect_count(split_rects_spec(area, direction, ws), ws.len() as int, px, py) == if rect_holds(area, px, py) {
            1int
        } else {
            0int
        },
        forall|i: int| 0 <= i < ws.len() ==> fits_coordinates(#[trigger] split_rects_spec(area, direction, ws)[i]),
{
    lemma_split_rects_count(area, direction, ws, ws.len() as int, px, py);
    law_distribution_covers_total(area.width, ws);
    law_distribution_covers_total(area.height, ws);
    let rects = split_rects_spec(area, direction, ws);
    assert forall|i: int| 0 <= i < ws.len() implies fits_coordinates(#[trigger] rects[i]) by {
        match direction {
            SplitDirection::Vertical => {
                let d = distribution(area.width, ws);
                lemma_sum_prefix_monotone(area.width, ws, i + 1, ws.len() as int);
                lemma_distribution_nonneg(area.width, ws, i);
                assert(sum_prefix(d, i + 1) == sum_prefix(d, i) + d[i]);
            },
            SplitDirection::Horizontal => {
                let d = distribution(area.height, ws);
                lemma_sum_prefix_monotone(area.height, ws, i + 1, ws.len() as int);
                lemma_distribution_nonneg(area.height, ws, i);
                assert(sum_prefix(d, i + 1) == sum_prefix(d, i) + d[i]);
            },
        }
    }
}

} // verus!
