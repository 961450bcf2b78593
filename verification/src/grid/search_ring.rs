//! The square rings of cells around a center. The cells of the ring at
//! distance `d` are numbered clockwise from the bottom left corner, from 0
//! up to `8 * d`; the ring at distance 0 is the center itself.

use vstd::prelude::*;

verus! {

/// Largest distance of a ring whose indices, and those of the ring behind it,
/// fit in `usize`.
pub const MAX_RING_DIST: usize = 0x0FFF_FFFF;

/// The number of cells of the ring at distance `dist`.
pub open spec fn ring_len(dist: int) -> int {
    if dist == 0 {
        1
    } else {
        8 * dist
    }
}

/// The position of the cell with the ring index `idx` at distance `dist`
/// around `(cx, cy)`, as whole numbers that may be negative. There is none
/// for an index beyond the ring.
pub open spec fn ring_cell(idx: int, cx: int, cy: int, dist: int) -> Option<(int, int)> {
    let rel = idx % (2 * dist);
    if dist == 0 {
        Some((cx, cy))
    } else if idx < 2 * dist {
        // bottom side
        Some((cx + rel - dist, cy - dist))
    } else if idx < 4 * dist {
        // right side
        Some((cx + dist, cy + rel - dist))
    } else if idx < 6 * dist {
        // top side
        Some((cx + dist - rel, cy + dist))
    } else if idx < 8 * dist {
        // left side
        Some((cx - dist, cy + dist - rel))
    } else {
        None
    }
}

/// The position of the cell with the ring index `idx` at distance `dist`
/// around `center`, where the ring has such a cell and its coordinates are
/// those of a position: not negative, and within `usize`.
pub open spec fn ring_position(idx: usize, center: (usize, usize), dist: usize) -> Option<
    (usize, usize),
> {
    match ring_cell(idx as int, center.0 as int, center.1 as int, dist as int) {
        Some((x, y)) => if 0 <= x <= usize::MAX && 0 <= y <= usize::MAX {
            Some((x as usize, y as usize))
        } else {
            None
        },
        None => None,
    }
}

/// A cell of the ring at distance `dist` lies at that distance from the
/// center on one axis and no farther on the other.
pub proof fn lemma_ring_cell_distance(idx: int, cx: int, cy: int, dist: int)
    requires
        0 <= idx,
        0 <= dist,
        ring_cell(idx, cx, cy, dist).is_some(),
    ensures
        ({
            let (x, y) = ring_cell(idx, cx, cy, dist).unwrap();
            &&& -dist <= x - cx <= dist
            &&& -dist <= y - cy <= dist
            &&& (x - cx == dist || cx - x == dist || y - cy == dist || cy - y == dist)
        }),
        dist > 0 ==> idx < ring_len(dist),
{
    if dist > 0 {
        let rel = idx % (2 * dist);
        assert(0 <= rel < 2 * dist);
    }
}

/// Converts the cell ring index into a position on a grid.
pub fn idx_pos(idx: usize, center: (usize, usize), dist: usize) -> (pos: Option<(usize, usize)>)
    ensures
        pos == ring_position(idx, center, dist),
{
    if dist == 0 {
        return Some(center);
    }
    let x: u128 = center.0 as u128;
    let y: u128 = center.1 as u128;
    let d: u128 = dist as u128;
    let i: u128 = idx as u128;
    let rel: u128 = i % (2 * d);
    let limit: u128 = usize::MAX as u128;
    if i < 2 * d {
        // bottom side
        if y < d || x + rel < d || x + rel - d > limit {
            None
        } else {
            Some(((x + rel - d) as usize, (y - d) as usize))
        }
    } else if i < 4 * d {
        // right side
        if y + rel < d || x + d > limit || y + rel - d > limit {
            None
        } else {
            Some(((x + d) as usize, (y + rel - d) as usize))
        }
    } else if i < 6 * d {
        // top side
        if x + d < rel || x + d - rel > limit || y + d > limit {
            None
        } else {
            Some(((x + d - rel) as usize, (y + d) as usize))
        }
    } else if i < 8 * d {
        // left side
        if x < d || y + d < rel || y + d - rel > limit {
            None
        } else {
            Some(((x - d) as usize, (y + d - rel) as usize))
        }
    } else {
        None
    }
}

/// The ring index before `i` in the ring at distance `dist`.
pub open spec fn ring_prev(i: int, dist: int) -> int {
    if i == 0 {
        8 * dist - 1
    } else {
        i - 1
    }
}

/// The ring index after `i` in the ring at distance `dist`.
pub open spec fn ring_next(i: int, dist: int) -> int {
    (i + 1) % (8 * dist)
}

/// The cell `i` of the ring at distance `dist` blocks the view: it is one of
/// the matches or next to one.
pub open spec fn is_blocked(i: int, matches: Seq<usize>, dist: int) -> bool {
    exists|k: int|
        0 <= k < matches.len() && (i == ring_prev(#[trigger] matches[k] as int, dist) || i
            == matches[k] || i == ring_next(matches[k] as int, dist))
}

/// The cells of the next ring that lie behind the cell `i` of the ring at
/// distance `dist`: two behind a corner, else one.
pub open spec fn behind(i: int, dist: int) -> Seq<usize> {
    let j = i + i / dist;
    if i % dist == 0 {
        seq![j as usize, (j + 1) as usize]
    } else {
        seq![(j + 1) as usize]
    }
}

/// The cells of the next ring that can be seen: those behind the first `n`
/// visible cells of this ring that do not block the view, in their order.
pub open spec fn visible_behind(
    dist: int,
    visible: Seq<usize>,
    matches: Seq<usize>,
    n: int,
) -> Seq<usize>
    decreases n,
{
    if n <= 0 {
        Seq::empty()
    } else {
        let before = visible_behind(dist, visible, matches, n - 1);
        if is_blocked(visible[n - 1] as int, matches, dist) {
            before
        } else {
            before + behind(visible[n - 1] as int, dist)
        }
    }
}

/// The indices of the cells of the ring at distance `dist + 1` that can be
/// seen from the center, given those that could be seen in the ring at
/// distance `dist` and those among them that matched. All eight cells around
/// the center can be seen unless the center matched, and none if it did.
pub open spec fn next_visible_of(dist: int, visible: Seq<usize>, matches: Seq<usize>) -> Seq<
    usize,
> {
    if dist == 0 {
        if matches.len() == 0 {
            seq![0usize, 1usize, 2usize, 3usize, 4usize, 5usize, 6usize, 7usize]
        } else {
            Seq::empty()
        }
    } else {
        visible_behind(dist, visible, matches, visible.len() as int)
    }
}

/// Every index is one of the ring at distance `dist`.
pub open spec fn in_ring(indices: Seq<usize>, dist: int) -> bool {
    forall|k: int| 0 <= k < indices.len() ==> (#[trigger] indices[k]) < ring_len(dist)
}

/// The cells behind the cells of a ring are cells of the next ring.
pub proof fn lemma_visible_behind_in_ring(
    dist: int,
    visible: Seq<usize>,
    matches: Seq<usize>,
    n: int,
)
    requires
        0 < dist <= MAX_RING_DIST,
        in_ring(visible, dist),
        0 <= n <= visible.len(),
    ensures
        in_ring(visible_behind(dist, visible, matches, n), dist + 1),
        visible_behind(dist, visible, matches, n).len() <= 2 * n,
    decreases n,
{
    if n > 0 {
        lemma_visible_behind_in_ring(dist, visible, matches, n - 1);
        let i = visible[n - 1] as int;
        lemma_behind(i, dist);
    }
}

/// The cells behind a cell of a ring are cells of the next ring.
pub proof fn lemma_behind(i: int, dist: int)
    requires
        0 < dist <= MAX_RING_DIST,
        0 <= i < 8 * dist,
    ensures
        0 <= i / dist < 8,
        i + i / dist + 1 < 8 * (dist + 1),
        forall|k: int| 0 <= k < behind(i, dist).len() ==> #[trigger] behind(i, dist)[k] < 8 * (dist + 1),
        i % dist == 0 ==> behind(i, dist) == seq![(i + i / dist) as usize, (i + i / dist + 1) as usize],
        i % dist != 0 ==> behind(i, dist) == seq![(i + i / dist + 1) as usize],
{
    assert(0 <= i / dist < 8) by (nonlinear_arith)
        requires
            0 <= i < 8 * dist,
            dist > 0,
    ;
}

/// Whether the cell `i` of the ring at distance `dist` blocks the view.
fn blocks(i: usize, matches: &[usize], dist: usize) -> (r: bool)
    requires
        0 < dist <= MAX_RING_DIST,
        in_ring(matches@, dist as int),
    ensures
        r == is_blocked(i as int, matches@, dist as int),
{
    let shell_len: usize = 8 * dist;
    let mut k: usize = 0;
    while k < matches.len()
        invariant
            0 <= k <= matches@.len(),
            0 < dist <= MAX_RING_DIST,
            shell_len == 8 * dist,
            in_ring(matches@, dist as int),
            forall|j: int|
                0 <= j < k ==> !(i == ring_prev(#[trigger] matches@[j] as int, dist as int) || i
                    == matches@[j] || i == ring_next(matches@[j] as int, dist as int)),
        decreases matches@.len() - k,
    {
        let m: usize = matches[k];
        assert(matches@[k as int] < ring_len(dist as int));
        let prev: usize = if m == 0 {
            shell_len - 1
        } else {
            m - 1
        };
        let next: usize = (m + 1) % shell_len;
        if i == prev || i == m || i == next {
            return true;
        }
        k += 1;
    }
    false
}

/// Gets list of indices into the next ring of cells indicating which cells
/// are visible and can be searched.
pub fn next_visible(curr_dist: usize, curr_visible: &[usize], curr_matches: &[usize]) -> (next:
    Vec<usize>)
    requires
        curr_dist <= MAX_RING_DIST,
        in_ring(curr_visible@, curr_dist as int),
        in_ring(curr_matches@, curr_dist as int),
    ensures
        next@ == next_visible_of(curr_dist as int, curr_visible@, curr_matches@),
        in_ring(next@, curr_dist + 1),
{
    let mut next: Vec<usize> = Vec::new();
    if curr_dist == 0 {
        if curr_matches.len() == 0 {
            let mut j: usize = 0;
            while j < 8
                invariant
                    0 <= j <= 8,
                    next@.len() == j,
                    forall|k: int| 0 <= k < j ==> #[trigger] next@[k] == k,
                decreases 8 - j,
            {
                next.push(j);
                j += 1;
            }
            assert(next@ =~= seq![0usize, 1usize, 2usize, 3usize, 4usize, 5usize, 6usize, 7usize]);
        }
        return next;
    }
    // If a cell from the current ring was a match or adjacent to a matched
    // cell then it blocks visibility into the next ring. If it does not, the
    // cells "behind" it in the next ring are visible.
    let mut n: usize = 0;
    while n < curr_visible.len()
        invariant
            0 <= n <= curr_visible@.len(),
            0 < curr_dist <= MAX_RING_DIST,
            in_ring(curr_visible@, curr_dist as int),
            in_ring(curr_matches@, curr_dist as int),
            next@ == visible_behind(curr_dist as int, curr_visible@, curr_matches@, n as int),
        decreases curr_visible@.len() - n,
    {
        let i: usize = curr_visible[n];
        assert(curr_visible@[n as int] < ring_len(curr_dist as int));
        if !blocks(i, curr_matches, curr_dist) {
            proof {
                lemma_behind(i as int, curr_dist as int);
            }
            let j: usize = i + i / curr_dist;
            if i % curr_dist == 0 {
                next.push(j);
                next.push(j + 1);
                assert(next@ =~= visible_behind(
                    curr_dist as int,
                    curr_visible@,
                    curr_matches@,
                    n as int,
                ) + seq![j, (j + 1) as usize]);
            } else {
                next.push(j + 1);
                assert(next@ =~= visible_behind(
                    curr_dist as int,
                    curr_visible@,
                    curr_matches@,
                    n as int,
                ) + seq![(j + 1) as usize]);
            }
        }
        n += 1;
    }
    proof {
        lemma_visible_behind_in_ring(
            curr_dist as int,
            curr_visible@,
            curr_matches@,
            curr_visible@.len() as int,
        );
    }
    next
}

} // verus!
