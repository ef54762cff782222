use vstd::prelude::*;

use crate::hallway::Hallway;
use crate::point::{lt_xy, lt_yx, Point};

verus! {

broadcast use vstd::seq_lib::group_to_multiset_ensures;

/// A structural fault in the corridor-strip input: an edge the cycle
/// traversal expected was absent, e.g. because an odd number of points
/// shared a coordinate.
#[derive(Clone, Copy, PartialEq, Eq, Structural, Debug)]
pub enum MergeError {
    MissingHorizontalEdge,
    MissingVerticalEdge,
}

/// Non-strict point order: by y then x when `by_y`, else by x then y.
pub open spec fn le_in(by_y: bool, a: Point, b: Point) -> bool {
    if by_y {
        lt_yx(a, b) || a == b
    } else {
        lt_xy(a, b) || a == b
    }
}

/// The sequence is sorted under the chosen order.
pub open spec fn sorted_in(by_y: bool, s: Seq<Point>) -> bool {
    forall|i: int, j: int| 0 <= i < j < s.len() ==> le_in(by_y, s[i], s[j])
}

/// The bidirectional edges formed by pairing the points of `s` two at a
/// time from position `i` on (`i` with `i + 1`, `i + 2` with `i + 3`, ...);
/// a trailing unpaired point contributes nothing.
pub open spec fn pairs_from(s: Seq<Point>, i: int) -> Seq<(Point, Point)>
    decreases s.len() - i,
{
    if 0 <= i && i + 1 < s.len() {
        seq![(s[i], s[i + 1]), (s[i + 1], s[i])] + pairs_from(s, i + 2)
    } else {
        Seq::empty()
    }
}

/// Step `k` of a traced polyline: an even step crosses a horizontal edge,
/// an odd step a vertical edge.
pub open spec fn pair_at(
    c: Seq<Point>,
    vpairs: Seq<(Point, Point)>,
    hpairs: Seq<(Point, Point)>,
    k: int,
) -> bool {
    if k % 2 == 0 {
        hpairs.contains((c[k], c[k + 1]))
    } else {
        vpairs.contains((c[k], c[k + 1]))
    }
}

/// A traced polyline: an even number of at least two points, whose steps
/// alternate horizontal and vertical edges and whose final vertical edge
/// closes the loop back to the first point.
pub open spec fn cycle_alternates(
    c: Seq<Point>,
    vpairs: Seq<(Point, Point)>,
    hpairs: Seq<(Point, Point)>,
) -> bool {
    &&& c.len() >= 2
    &&& c.len() % 2 == 0
    &&& forall|k: int| 0 <= k < c.len() - 1 ==> #[trigger] pair_at(c, vpairs, hpairs, k)
    &&& vpairs.contains((c.last(), c.first()))
}

/// The merge's partition guarantee: no hallway repeats a point, no two
/// hallways share one, and every distinct input point lands in a hallway.
#[verifier::opaque]
pub open spec fn hallways_partition(hs: Seq<Hallway>, points: Seq<Point>) -> bool {
    &&& forall|i: int| 0 <= i < hs.len() ==> (#[trigger] hs[i]).spec_points().no_duplicates()
    &&& forall|i1: int, j1: int, i2: int, j2: int|
        0 <= i1 < hs.len() && 0 <= j1 < hs[i1].spec_points().len() && 0 <= i2 < hs.len() && 0 <= j2
            < hs[i2].spec_points().len() && i1 != i2 ==> #[trigger] (hs[i1].spec_points()[j1])
            != #[trigger] (hs[i2].spec_points()[j2])
    &&& forall|p: Point| points.contains(p) ==> covered(hs, p)
}

/// The merge's cycle guarantee: `sx` and `sy` are the input's distinct
/// points in the two sorting orders, every hallway alternates over their
/// pairings, and, when the distinct-point count is even and the pairings
/// axis-aligned, every hallway holds at least four points.
#[verifier::opaque]
pub open spec fn hallway_cycles_over(
    hs: Seq<Hallway>,
    points: Seq<Point>,
    sx: Seq<Point>,
    sy: Seq<Point>,
) -> bool {
    &&& is_ordered_point_set(false, sx, points)
    &&& is_ordered_point_set(true, sy, points)
    &&& forall|i: int|
        0 <= i < hs.len() ==> cycle_alternates(
            (#[trigger] hs[i]).spec_points(),
            pairs_from(sx, 0),
            pairs_from(sy, 0),
        )
    &&& distinct_point_count_even(points) && pairs_axis_aligned(
        pairs_from(sx, 0),
        pairs_from(sy, 0),
    ) ==> forall|i: int| 0 <= i < hs.len() ==> (#[trigger] hs[i]).spec_points().len() >= 4
}

/// The points of `source`, each once, in the chosen order: the sequence the
/// sort-then-dedup pipeline produces.
pub open spec fn is_ordered_point_set(by_y: bool, s: Seq<Point>, source: Seq<Point>) -> bool {
    &&& sorted_in(by_y, s)
    &&& forall|i: int| 0 <= i < s.len() - 1 ==> (#[trigger] s[i]) != s[i + 1]
    &&& forall|p: Point| s.contains(p) <==> source.contains(p)
}

fn le_points(by_y: bool, a: Point, b: Point) -> (r: bool)
    ensures
        r == le_in(by_y, a, b),
{
    if by_y {
        a.y < b.y || (a.y == b.y && a.x <= b.x)
    } else {
        a.x < b.x || (a.x == b.x && a.y <= b.y)
    }
}


/// `p` keys an entry of the edge list.
pub open spec fn has_key(m: Seq<(Point, Point)>, p: Point) -> bool {
    exists|i: int| 0 <= i < m.len() && (#[trigger] m[i]).0 == p
}

/// The number of distinct points among the merge input is even. Each point
/// then receives exactly one vertical and one horizontal pairing partner,
/// which is what the cycle traversal needs to succeed.
pub open spec fn distinct_point_count_even(points: Seq<Point>) -> bool {
    points.to_set().len() % 2 == 0
}

/// Every vertical pairing edge joins points of one x, and every horizontal
/// pairing edge joins points of one y: the shape well-formed carved strips
/// produce.
pub open spec fn pairs_axis_aligned(vpairs: Seq<(Point, Point)>, hpairs: Seq<(Point, Point)>) -> bool {
    &&& forall|i: int| 0 <= i < vpairs.len() ==> (#[trigger] vpairs[i]).0.x == vpairs[i].1.x
    &&& forall|i: int| 0 <= i < hpairs.len() ==> (#[trigger] hpairs[i]).0.y == hpairs[i].1.y
}

/// The edge list is a perfect matching on its keys: every key occurs once,
/// every entry stands beside its reverse, and no point partners itself.
pub open spec fn is_matching(m: Seq<(Point, Point)>) -> bool {
    &&& forall|a: int, b: int|
        0 <= a < b < m.len() ==> (#[trigger] m[a]).0 != (#[trigger] m[b]).0
    &&& forall|i: int| 0 <= i < m.len() ==> m.contains(((#[trigger] m[i]).1, m[i].0))
    &&& forall|i: int| 0 <= i < m.len() ==> (#[trigger] m[i]).0 != m[i].1
}

/// Some hallway of the list passes through `p`.
pub open spec fn covered(hs: Seq<Hallway>, p: Point) -> bool {
    exists|i: int, j: int|
        0 <= i < hs.len() && 0 <= j < hs[i].spec_points().len()
            && #[trigger] (hs[i].spec_points()[j]) == p
}

/// Removing the entry at `i` from a uniquely keyed edge list removes
/// exactly that key and exactly that entry.
proof fn lemma_remove_key(m0: Seq<(Point, Point)>, m1: Seq<(Point, Point)>, i: int)
    requires
        0 <= i < m0.len(),
        m1 == m0.remove(i),
        forall|a: int, b: int|
            0 <= a < b < m0.len() ==> (#[trigger] m0[a]).0 != (#[trigger] m0[b]).0,
    ensures
        forall|p: Point| has_key(m1, p) <==> (has_key(m0, p) && p != m0[i].0),
        forall|a: int, b: int|
            0 <= a < b < m1.len() ==> (#[trigger] m1[a]).0 != (#[trigger] m1[b]).0,
        forall|e: (Point, Point)| m1.contains(e) <==> (m0.contains(e) && e != m0[i]),
{
    m0.remove_ensures(i);
    assert forall|a: int, b: int| 0 <= a < b < m1.len() implies (#[trigger] m1[a]).0 != (
    #[trigger] m1[b]).0 by {
        let a0 = if a < i { a } else { a + 1 };
        let b0 = if b < i { b } else { b + 1 };
        assert(m1[a] == m0[a0] && m1[b] == m0[b0]);
    }
    assert forall|p: Point| has_key(m1, p) <==> (has_key(m0, p) && p != m0[i].0) by {
        if has_key(m1, p) {
            let j = choose|j: int| 0 <= j < m1.len() && (#[trigger] m1[j]).0 == p;
            let j0 = if j < i { j } else { j + 1 };
            assert(m1[j] == m0[j0]);
            assert(m0[j0].0 == p && j0 != i);
            assert(m0[i].0 != m0[j0].0);
            assert(has_key(m0, p));
        }
        if has_key(m0, p) && p != m0[i].0 {
            let j = choose|j: int| 0 <= j < m0.len() && (#[trigger] m0[j]).0 == p;
            assert(j != i);
            if j < i {
                assert(m1[j] == m0[j]);
            } else {
                assert(m1[j - 1] == m0[j]);
            }
            assert(has_key(m1, p));
        }
    }
    assert forall|e: (Point, Point)| m1.contains(e) <==> (m0.contains(e) && e != m0[i]) by {
        if m1.contains(e) {
            let j = choose|j: int| 0 <= j < m1.len() && m1[j] == e;
            let j0 = if j < i { j } else { j + 1 };
            assert(m1[j] == m0[j0]);
            assert(m0.contains(e));
            assert(m0[i].0 != m0[j0].0);
        }
        if m0.contains(e) && e != m0[i] {
            let j = choose|j: int| 0 <= j < m0.len() && m0[j] == e;
            assert(j != i);
            if j < i {
                assert(m1[j] == m0[j]);
            } else {
                assert(m1[j - 1] == m0[j]);
            }
            assert(m1.contains(e));
        }
    }
}

/// Pairing a duplicate-free sequence from an even position onward yields a
/// uniquely keyed, reverse-closed, loop-free edge list whose keys are the
/// sequence's points from that position on.
proof fn lemma_pairs_from_matching_rec(s: Seq<Point>, i: int)
    requires
        s.no_duplicates(),
        s.len() % 2 == 0,
        0 <= i <= s.len(),
        i % 2 == 0,
    ensures
        is_matching(pairs_from(s, i)),
        forall|p: Point|
            has_key(pairs_from(s, i), p) <==> exists|k: int| i <= k < s.len() && s[k] == p,
    decreases s.len() - i,
{
    let m = pairs_from(s, i);
    if i + 1 < s.len() {
        let rest = pairs_from(s, i + 2);
        lemma_pairs_from_matching_rec(s, i + 2);
        assert(m == seq![(s[i], s[i + 1]), (s[i + 1], s[i])] + rest);
        assert(m.len() == 2 + rest.len());
        assert(m[0] == (s[i], s[i + 1]) && m[1] == (s[i + 1], s[i]));
        assert(forall|j: int| 0 <= j < rest.len() ==> m[j + 2] == #[trigger] rest[j]);
        assert forall|p: Point|
            has_key(m, p) <==> exists|k: int| i <= k < s.len() && s[k] == p by {
            if has_key(m, p) {
                let j = choose|j: int| 0 <= j < m.len() && (#[trigger] m[j]).0 == p;
                if j >= 2 {
                    assert(rest[j - 2].0 == p);
                    assert(has_key(rest, p));
                    let k = choose|k: int| i + 2 <= k < s.len() && s[k] == p;
                    assert(i <= k < s.len() && s[k] == p);
                }
            }
            if exists|k: int| i <= k < s.len() && s[k] == p {
                let k = choose|k: int| i <= k < s.len() && s[k] == p;
                if k == i {
                    assert(m[0].0 == p);
                } else if k == i + 1 {
                    assert(m[1].0 == p);
                } else {
                    assert(has_key(rest, p));
                    let j = choose|j: int| 0 <= j < rest.len() && (#[trigger] rest[j]).0 == p;
                    assert(m[j + 2].0 == p);
                }
                assert(has_key(m, p));
            }
        }
        assert forall|a: int, b: int| 0 <= a < b < m.len() implies (#[trigger] m[a]).0 != (
        #[trigger] m[b]).0 by {
            if b >= 2 {
                assert(has_key(rest, m[b].0));
                let k = choose|k: int| i + 2 <= k < s.len() && s[k] == m[b].0;
                if a == 0 {
                    assert(s[i] != s[k]);
                } else if a == 1 {
                    assert(s[i + 1] != s[k]);
                }
            }
        }
        assert forall|j: int| 0 <= j < m.len() implies m.contains(
            ((#[trigger] m[j]).1, m[j].0),
        ) by {
            if j == 0 {
                assert(m[1] == (m[0].1, m[0].0));
            } else if j == 1 {
                assert(m[0] == (m[1].1, m[1].0));
            } else {
                assert(rest.contains((rest[j - 2].1, rest[j - 2].0)));
                let t = choose|t: int|
                    0 <= t < rest.len() && (#[trigger] rest[t]) == (rest[j - 2].1, rest[j - 2].0);
                assert(m[t + 2] == (m[j].1, m[j].0));
            }
        }
        assert forall|j: int| 0 <= j < m.len() implies (#[trigger] m[j]).0 != m[j].1 by {
            if j >= 2 {
                assert(rest[j - 2].0 != rest[j - 2].1);
            } else {
                assert(s[i] != s[i + 1]);
            }
        }
    } else {
        assert(i == s.len());
        assert(m =~= Seq::<(Point, Point)>::empty());
    }
}

/// Insertion sort under the chosen order; keeps the multiset of points.
pub fn sort_points(v: &Vec<Point>, by_y: bool) -> (r: Vec<Point>)
    ensures
        sorted_in(by_y, r@),
        r@.to_multiset() == v@.to_multiset(),
        r@.len() == v@.len(),
{
    let mut out: Vec<Point> = Vec::new();
    let mut i: usize = 0;
    proof {
        assert(v@.take(0) =~= Seq::<Point>::empty());
        assert(out@.to_multiset() =~= v@.take(0).to_multiset());
    }
    while i < v.len()
        invariant
            i <= v@.len(),
            sorted_in(by_y, out@),
            out@.to_multiset() == v@.take(i as int).to_multiset(),
            out@.len() == i,
        decreases v@.len() - i,
    {
        let x = v[i];
        let mut j: usize = 0;
        while j < out.len() && le_points(by_y, out[j], x)
            invariant
                j <= out@.len(),
                forall|k: int| 0 <= k < j ==> le_in(by_y, out@[k], x),
                sorted_in(by_y, out@),
            decreases out@.len() - j,
        {
            j = j + 1;
        }
        let ghost prev = out@;
        out.insert(j, x);
        proof {
            assert(out@ == prev.insert(j as int, x));
            prev.insert_ensures(j as int, x);
            assert forall|a: int, b: int| 0 <= a < b < out@.len() implies le_in(
                by_y,
                out@[a],
                out@[b],
            ) by {
                if b < j {
                } else if a < j && b == j {
                } else if a < j && b > j {
                    assert(le_in(by_y, prev[a], x));
                    assert(out@[b] == prev[b - 1]);
                    assert(le_in(by_y, prev[a], prev[b - 1]));
                } else if a == j {
                    assert(out@[b] == prev[b - 1]);
                    assert(!le_in(by_y, prev[j as int], x) ==> le_in(by_y, x, prev[j as int]));
                    assert(le_in(by_y, prev[j as int], prev[b - 1]));
                } else {
                    assert(out@[a] == prev[a - 1] && out@[b] == prev[b - 1]);
                }
            }
            assert(out@.to_multiset() == prev.to_multiset().insert(x));
            assert(v@.take(i + 1) =~= v@.take(i as int).push(x));
            assert(v@.take(i + 1).to_multiset() == v@.take(i as int).to_multiset().insert(x));
        }
        i = i + 1;
    }
    proof {
        assert(v@.take(v@.len() as int) =~= v@);
    }
    out
}

/// Removes consecutive duplicates; on a sorted input, what remains are the
/// distinct points in order.
pub fn dedup_points(v: &Vec<Point>) -> (r: Vec<Point>)
    ensures
        forall|p: Point| r@.contains(p) <==> v@.contains(p),
        forall|i: int| 0 <= i < r@.len() - 1 ==> (#[trigger] r@[i]) != r@[i + 1],
        r@.len() <= v@.len(),
        sorted_in(false, v@) ==> sorted_in(false, r@),
        sorted_in(true, v@) ==> sorted_in(true, r@),
{
    let mut out: Vec<Point> = Vec::new();
    let mut i: usize = 0;
    while i < v.len()
        invariant
            i <= v@.len(),
            out@.len() <= i,
            forall|p: Point| out@.contains(p) <==> v@.take(i as int).contains(p),
            forall|k: int| 0 <= k < out@.len() - 1 ==> (#[trigger] out@[k]) != out@[k + 1],
            out@.len() > 0 ==> i > 0 && out@.last() == v@[i - 1],
            out@.len() == 0 ==> i == 0,
            sorted_in(false, v@) ==> sorted_in(false, out@),
            sorted_in(true, v@) ==> sorted_in(true, out@),
        decreases v@.len() - i,
    {
        let x = v[i];
        let ghost prev = out@;
        if out.len() == 0 {
            out.push(x);
        } else {
            let last = out[out.len() - 1];
            if !(last == x) {
                out.push(x);
            }
        }
        proof {
            if out@ != prev {
                assert(out@ == prev.push(x));
                assert forall|by_y: bool| sorted_in(by_y, v@) implies sorted_in(by_y, out@) by {
                    assert forall|a: int, b: int| 0 <= a < b < out@.len() implies le_in(
                        by_y,
                        out@[a],
                        out@[b],
                    ) by {
                        if b < prev.len() {
                            assert(out@[a] == prev[a] && out@[b] == prev[b]);
                        } else {
                            assert(out@[b] == x);
                            if prev.len() > 0 {
                                assert(le_in(by_y, prev.last(), x));
                                assert(le_in(by_y, prev[a], prev[prev.len() - 1]));
                            }
                        }
                    }
                }
            }
            assert(v@.take(i + 1) =~= v@.take(i as int).push(x));
            assert forall|p: Point| out@.contains(p) <==> v@.take(i + 1).contains(p) by {
                if out@ == prev {
                    assert(prev.last() == x);
                    assert(prev.contains(x));
                    if v@.take(i + 1).contains(p) {
                        if p == x {
                            assert(out@.contains(p));
                        } else {
                            assert(v@.take(i as int).contains(p));
                        }
                    }
                } else {
                    assert(out@ == prev.push(x));
                    if out@.contains(p) {
                        let k = choose|k: int| 0 <= k < out@.len() && out@[k] == p;
                        if k < prev.len() {
                            assert(prev.contains(p));
                            assert(v@.take(i as int).contains(p));
                            let t = choose|t: int|
                                0 <= t < v@.take(i as int).len() && v@.take(i as int)[t] == p;
                            assert(v@.take(i + 1)[t] == p);
                        } else {
                            assert(p == x);
                            assert(v@.take(i + 1)[i as int] == p);
                        }
                        assert(v@.take(i + 1).contains(p));
                    }
                    if v@.take(i + 1).contains(p) {
                        if p == x {
                            assert(out@[out@.len() - 1] == p);
                            assert(out@.contains(p));
                        } else {
                            assert(v@.take(i as int).contains(p));
                            assert(prev.contains(p));
                            let k = choose|k: int| 0 <= k < prev.len() && prev[k] == p;
                            assert(out@[k] == p);
                            assert(out@.contains(p));
                        }
                    }
                }
            }
        }
        i = i + 1;
    }
    proof {
        assert(v@.take(v@.len() as int) =~= v@);
    }
    out
}

/// Every endpoint recorded in the edge list occurs in `u`.
spec fn edges_in(m: Seq<(Point, Point)>, u: Seq<Point>) -> bool {
    forall|i: int| 0 <= i < m.len() ==> u.contains((#[trigger] m[i]).0) && u.contains(m[i].1)
}

/// Appends the bidirectional edge between `a` and `b`.
fn edges_insert(m: &mut Vec<(Point, Point)>, a: Point, b: Point)
    ensures
        final(m)@ == old(m)@.push((a, b)).push((b, a)),
        forall|u: Seq<Point>|
            (#[trigger] edges_in(old(m)@, u)) && u.contains(a) && u.contains(b) ==> edges_in(
                final(m)@,
                u,
            ),
{
    m.push((a, b));
    m.push((b, a));
}

/// The first partner recorded for `k`, if any.
fn edges_lookup(m: &Vec<(Point, Point)>, k: &Point) -> (r: Option<Point>)
    ensures
        match r {
            Some(v) => {
                &&& exists|i: int| 0 <= i < m@.len() && m@[i] == (*k, v)
                &&& forall|u: Seq<Point>| (#[trigger] edges_in(m@, u)) ==> u.contains(v)
            },
            None => forall|i: int| 0 <= i < m@.len() ==> m@[i].0 != *k,
        },
{
    let mut i: usize = 0;
    while i < m.len()
        invariant
            i <= m@.len(),
            forall|j: int| 0 <= j < i ==> m@[j].0 != *k,
        decreases m@.len() - i,
    {
        if m[i].0 == *k {
            return Some(m[i].1);
        }
        i = i + 1;
    }
    None
}

/// Removes the first entry recorded for `k` and returns its partner. The
/// remaining entries are a selection of the old ones.
fn edges_remove(m: &mut Vec<(Point, Point)>, k: &Point) -> (r: Option<Point>)
    ensures
        match r {
            Some(v) => {
                &&& exists|i: int|
                    0 <= i < old(m)@.len() && old(m)@[i] == (*k, v) && final(m)@ == old(m)@.remove(
                        i,
                    )
                &&& final(m)@.len() == old(m)@.len() - 1
            },
            None => {
                &&& final(m)@ == old(m)@
                &&& forall|i: int| 0 <= i < old(m)@.len() ==> old(m)@[i].0 != *k
            },
        },
        forall|u: Seq<Point>| (#[trigger] edges_in(old(m)@, u)) ==> edges_in(final(m)@, u),
        forall|j: int| 0 <= j < final(m)@.len() ==> old(m)@.contains(#[trigger] final(m)@[j]),
        match r {
            Some(v) => forall|u: Seq<Point>| (#[trigger] edges_in(old(m)@, u)) ==> u.contains(v),
            None => true,
        },
{
    let mut i: usize = 0;
    while i < m.len()
        invariant
            i <= m@.len(),
            m@ == old(m)@,
            forall|j: int| 0 <= j < i ==> m@[j].0 != *k,
        decreases m@.len() - i,
    {
        if m[i].0 == *k {
            let e = m.remove(i);
            proof {
                assert(old(m)@[i as int] == (*k, e.1));
                assert(m@ == old(m)@.remove(i as int));
                old(m)@.remove_ensures(i as int);
                assert forall|j: int| 0 <= j < m@.len() implies old(m)@.contains(
                    #[trigger] m@[j],
                ) by {
                    if j < i {
                        assert(m@[j] == old(m)@[j]);
                    } else {
                        assert(m@[j] == old(m)@[j + 1]);
                    }
                }
                assert forall|u: Seq<Point>| (#[trigger] edges_in(old(m)@, u)) implies edges_in(
                    m@,
                    u,
                ) by {
                    assert forall|j: int| 0 <= j < m@.len() implies u.contains(
                        (#[trigger] m@[j]).0,
                    ) && u.contains(m@[j].1) by {
                        if j < i {
                            assert(m@[j] == old(m)@[j]);
                        } else {
                            assert(m@[j] == old(m)@[j + 1]);
                        }
                    }
                }
            }
            return Some(e.1);
        }
        i = i + 1;
    }
    None
}


/// Removes both directions of the edge keyed by `k`: first the entry for
/// `k`, then the entry for the partner that came back. On a matching this
/// consumes exactly one edge and leaves a matching on the remaining keys.
fn edges_remove_pair(m: &mut Vec<(Point, Point)>, k: &Point) -> (r: Option<Point>)
    ensures
        final(m)@.len() <= old(m)@.len(),
        forall|u: Seq<Point>| (#[trigger] edges_in(old(m)@, u)) ==> edges_in(final(m)@, u),
        forall|j: int| 0 <= j < final(m)@.len() ==> old(m)@.contains(#[trigger] final(m)@[j]),
        match r {
            Some(v) => {
                &&& final(m)@.len() < old(m)@.len()
                &&& old(m)@.contains((*k, v))
                &&& forall|u: Seq<Point>|
                    (#[trigger] edges_in(old(m)@, u)) ==> u.contains(v)
            },
            None => {
                &&& final(m)@ == old(m)@
                &&& !has_key(old(m)@, *k)
            },
        },
        is_matching(old(m)@) ==> match r {
            Some(v) => {
                &&& is_matching(final(m)@)
                &&& v != *k
                &&& forall|p: Point|
                    has_key(final(m)@, p) <==> (has_key(old(m)@, p) && p != *k && p != v)
                &&& forall|e: (Point, Point)|
                    final(m)@.contains(e) <==> (old(m)@.contains(e) && e != (*k, v) && e != (
                    v,
                    *k,
                    ))
            },
            None => true,
        },
        is_matching(old(m)@) && has_key(old(m)@, *k) ==> r is Some,
{
    let m0 = Ghost(m@);
    match edges_remove(m, k) {
        Some(v) => {
            let m1 = Ghost(m@);
            proof {
                let i0 = choose|i: int|
                    0 <= i < m0@.len() && m0@[i] == (*k, v) && m1@ == m0@.remove(i);
                if is_matching(m0@) {
                    lemma_remove_key(m0@, m1@, i0);
                    assert(m0@[i0] == (*k, v));
                    assert(v != *k);
                    assert(m0@.contains((v, *k)));
                    assert(m1@.contains((v, *k)));
                    assert(has_key(m1@, v));
                }
            }
            let reverse = edges_remove(m, &v);
            proof {
                if is_matching(m0@) {
                    match reverse {
                        Some(w) => {
                            let i1 = choose|i: int|
                                0 <= i < m1@.len() && m1@[i] == (v, w) && m@ == m1@.remove(i);
                            assert(m1@.contains((v, w)) && m1@.contains((v, *k)));
                            let a = choose|a: int| 0 <= a < m1@.len() && m1@[a] == (v, w);
                            let b = choose|b: int| 0 <= b < m1@.len() && m1@[b] == (v, *k);
                            assert(a == b);
                            assert(w == *k);
                            lemma_remove_key(m1@, m@, i1);
                            assert forall|e: (Point, Point)| m@.contains(e) <==> (
                            m0@.contains(e) && e != (*k, v) && e != (v, *k)) by {}
                            assert forall|p: Point|
                                has_key(m@, p) <==> (has_key(m0@, p) && p != *k && p != v) by {}
                            assert forall|j: int| 0 <= j < m@.len() implies m@.contains(
                                ((#[trigger] m@[j]).1, m@[j].0),
                            ) by {
                                assert(m0@.contains(m@[j]));
                                let t = choose|t: int|
                                    0 <= t < m0@.len() && (#[trigger] m0@[t]) == m@[j];
                                assert(m0@.contains((m@[j].1, m@[j].0)));
                                assert(m@[j] != (*k, v) && m@[j] != (v, *k));
                                assert((m@[j].1, m@[j].0) != (*k, v) && (m@[j].1, m@[j].0) != (
                                v,
                                *k,
                                ));
                            }
                            assert forall|j: int| 0 <= j < m@.len() implies (
                            #[trigger] m@[j]).0 != m@[j].1 by {
                                assert(m0@.contains(m@[j]));
                                let t = choose|t: int|
                                    0 <= t < m0@.len() && (#[trigger] m0@[t]) == m@[j];
                            }
                            assert(is_matching(m@));
                        },
                        None => {
                            assert(!has_key(m1@, v));
                            assert(false);
                        },
                    }
                }
            }
            Some(v)
        },
        None => None,
    }
}

/// Pairs consecutive points (0 with 1, 2 with 3, ...) and records each pair
/// as a bidirectional edge. A trailing unpaired point contributes nothing.
fn build_edges(pts: &Vec<Point>) -> (m: Vec<(Point, Point)>)
    ensures
        edges_in(m@, pts@),
        m@ == pairs_from(pts@, 0),
        pts@.len() == 0 ==> m@.len() == 0,
        pts@.len() >= 2 ==> m@.len() >= 2,
{
    let mut m: Vec<(Point, Point)> = Vec::new();
    let mut idx: usize = 0;
    proof {
        assert(m@ + pairs_from(pts@, 0) =~= pairs_from(pts@, 0));
    }
    while idx < pts.len() && idx + 1 < pts.len()
        invariant
            edges_in(m@, pts@),
            pts@.len() == 0 ==> m@.len() == 0,
            idx >= 2 ==> m@.len() >= 2,
            idx % 2 == 0,
            idx <= pts@.len(),
            m@ + pairs_from(pts@, idx as int) == pairs_from(pts@, 0),
        decreases pts@.len() - idx,
    {
        let a = pts[idx];
        let b = pts[idx + 1];
        let ghost m0 = m@;
        edges_insert(&mut m, a, b);
        proof {
            assert(pairs_from(pts@, idx as int) == seq![(a, b), (b, a)] + pairs_from(
                pts@,
                idx + 2,
            ));
            assert(m@ + pairs_from(pts@, idx + 2) =~= m0 + pairs_from(pts@, idx as int));
        }
        idx = idx + 2;
    }
    proof {
        assert(pairs_from(pts@, idx as int) =~= Seq::<(Point, Point)>::empty());
        assert(m@ + pairs_from(pts@, idx as int) =~= m@);
    }
    m
}

/// Entries kept through a removal stay entries of the original edge list.
proof fn lemma_entries_subset_trans(
    now: Seq<(Point, Point)>,
    before: Seq<(Point, Point)>,
    base: Seq<(Point, Point)>,
)
    requires
        forall|j: int| 0 <= j < now.len() ==> before.contains(#[trigger] now[j]),
        forall|j: int| 0 <= j < before.len() ==> base.contains(#[trigger] before[j]),
    ensures
        forall|j: int| 0 <= j < now.len() ==> base.contains(#[trigger] now[j]),
{
    assert forall|j: int| 0 <= j < now.len() implies base.contains(#[trigger] now[j]) by {
        assert(before.contains(now[j]));
        let t = choose|t: int| 0 <= t < before.len() && before[t] == now[j];
        assert(base.contains(before[t]));
    }
}

/// Reassembles the outlines of the carved corridor strips from the flat list
/// of their corner points. The points are sorted by x then y and paired into
/// vertical edges, re-sorted by y then x and paired into horizontal edges,
/// and the edges are traced into closed polylines, alternating horizontal
/// and vertical steps and consuming each edge once. A missing edge reports
/// the malformed input instead of a polyline.
/// The hallways emitted so far hold only retired points: none of their
/// points still keys a vertical edge, none repeats within a hallway, and no
/// point lies in two hallways.
spec fn hallways_clean(vertical: Seq<(Point, Point)>, hs: Seq<Hallway>) -> bool {
    &&& forall|i: int, j: int|
        0 <= i < hs.len() && 0 <= j < hs[i].spec_points().len() ==> !has_key(
            vertical,
            #[trigger] (hs[i].spec_points()[j]),
        )
    &&& forall|i: int| 0 <= i < hs.len() ==> (#[trigger] hs[i]).spec_points().no_duplicates()
    &&& forall|i1: int, j1: int, i2: int, j2: int|
        0 <= i1 < hs.len() && 0 <= j1 < hs[i1].spec_points().len() && 0 <= i2 < hs.len() && 0 <= j2
            < hs[i2].spec_points().len() && i1 != i2 ==> #[trigger] (hs[i1].spec_points()[j1])
            != #[trigger] (hs[i2].spec_points()[j2])
}

/// Between cycles, the two edge lists are matchings on one and the same set
/// of still-live points, and every distinct point is either live or retired
/// into exactly the emitted hallways.
spec fn merge_clean_inv(
    vertical: Seq<(Point, Point)>,
    horizontal: Seq<(Point, Point)>,
    hs: Seq<Hallway>,
    deduped: Seq<Point>,
) -> bool {
    &&& is_matching(vertical)
    &&& is_matching(horizontal)
    &&& forall|p: Point| has_key(vertical, p) <==> has_key(horizontal, p)
    &&& forall|p: Point| deduped.contains(p) <==> (has_key(vertical, p) || covered(hs, p))
    &&& hallways_clean(vertical, hs)
}

/// Mid-cycle, the traced points are pairwise distinct and retired from the
/// horizontal list; the interior ones are retired from the vertical list
/// too, while the start and the current point still hold vertical keys.
spec fn trace_clean_inv(
    vertical: Seq<(Point, Point)>,
    horizontal: Seq<(Point, Point)>,
    hs: Seq<Hallway>,
    cycle: Seq<Point>,
    deduped: Seq<Point>,
    start: Point,
    current: Point,
) -> bool {
    &&& is_matching(vertical)
    &&& is_matching(horizontal)
    &&& forall|p: Point|
        has_key(horizontal, p) <==> (has_key(vertical, p) && p != start && p != current)
    &&& has_key(vertical, start)
    &&& has_key(vertical, current)
    &&& start != current
    &&& cycle.len() >= 2
    &&& cycle[0] == start
    &&& cycle.last() == current
    &&& cycle.no_duplicates()
    &&& forall|i: int| 0 < i < cycle.len() - 1 ==> !has_key(vertical, #[trigger] cycle[i])
    &&& forall|i: int| 0 <= i < cycle.len() ==> !has_key(horizontal, #[trigger] cycle[i])
    &&& forall|p: Point|
        deduped.contains(p) <==> (has_key(vertical, p) || covered(hs, p) || cycle.contains(p))
    &&& forall|k: int, i: int, j: int|
        0 <= k < cycle.len() && 0 <= i < hs.len() && 0 <= j < hs[i].spec_points().len()
            ==> #[trigger] cycle[k] != #[trigger] (hs[i].spec_points()[j])
    &&& hallways_clean(vertical, hs)
}

/// An alternating cycle with distinct endpoints cannot close after a single
/// horizontal step when the pairings are axis-aligned, so it has at least
/// four points.
proof fn lemma_cycle_at_least_four(
    cycle: Seq<Point>,
    vpairs: Seq<(Point, Point)>,
    hpairs: Seq<(Point, Point)>,
)
    requires
        cycle_alternates(cycle, vpairs, hpairs),
        pairs_axis_aligned(vpairs, hpairs),
        cycle[0] != cycle[cycle.len() - 1],
    ensures
        cycle.len() >= 4,
{
    if cycle.len() == 2 {
        assert(pair_at(cycle, vpairs, hpairs, 0));
        assert(hpairs.contains((cycle[0], cycle[1])));
        let th = choose|th: int|
            0 <= th < hpairs.len() && (#[trigger] hpairs[th]) == (cycle[0], cycle[1]);
        assert(cycle[0].y == cycle[1].y);
        assert(vpairs.contains((cycle[1], cycle[0])));
        let tv = choose|tv: int|
            0 <= tv < vpairs.len() && (#[trigger] vpairs[tv]) == (cycle[1], cycle[0]);
        assert(cycle[0].x == cycle[1].x);
        assert(cycle[0] == cycle[1]);
        assert(false);
    }
}

/// After sorting and deduplication, the distinct points stand once each, in
/// order, and their count is the input's distinct-point count.
proof fn lemma_merge_setup(
    points: Seq<Point>,
    sorted_x: Seq<Point>,
    deduped: Seq<Point>,
    sorted_y: Seq<Point>,
)
    requires
        sorted_x.to_multiset() == points.to_multiset(),
        sorted_in(false, sorted_x),
        sorted_in(false, deduped),
        forall|p: Point| deduped.contains(p) <==> sorted_x.contains(p),
        forall|i: int| 0 <= i < deduped.len() - 1 ==> (#[trigger] deduped[i]) != deduped[i + 1],
        sorted_y.to_multiset() == deduped.to_multiset(),
        sorted_in(true, sorted_y),
    ensures
        forall|p: Point| deduped.contains(p) <==> points.contains(p),
        forall|p: Point| sorted_y.contains(p) <==> deduped.contains(p),
        deduped.no_duplicates(),
        sorted_y.no_duplicates(),
        (deduped.len() % 2 == 0) == distinct_point_count_even(points),
        is_ordered_point_set(false, deduped, points),
        is_ordered_point_set(true, sorted_y, points),
{
    broadcast use vstd::seq_lib::group_to_multiset_ensures;

    assert forall|p: Point| deduped.contains(p) <==> points.contains(p) by {
        assert(sorted_x.contains(p) <==> sorted_x.to_multiset().count(p) > 0);
        assert(points.contains(p) <==> points.to_multiset().count(p) > 0);
    }
    assert forall|p: Point| sorted_y.contains(p) <==> deduped.contains(p) by {
        assert(sorted_y.contains(p) <==> sorted_y.to_multiset().count(p) > 0);
        assert(deduped.contains(p) <==> deduped.to_multiset().count(p) > 0);
    }
    assert forall|i: int, j: int| 0 <= i < j < deduped.len() implies deduped[i] != deduped[j] by {
        assert(le_in(false, deduped[i], deduped[i + 1]));
        assert(deduped[i] != deduped[i + 1]);
        if i + 1 < j {
            assert(le_in(false, deduped[i + 1], deduped[j]));
        }
    }
    assert(deduped.no_duplicates());
    deduped.lemma_multiset_has_no_duplicates();
    assert forall|x: Point| sorted_y.to_multiset().contains(x)
        implies sorted_y.to_multiset().count(x) == 1 by {
        assert(sorted_y.to_multiset() == deduped.to_multiset());
    }
    sorted_y.lemma_multiset_has_no_duplicates_conv();
    deduped.unique_seq_to_set();
    assert(deduped.to_set() =~= points.to_set());
    assert forall|i: int| 0 <= i < sorted_y.len() - 1 implies (#[trigger] sorted_y[i])
        != sorted_y[i + 1] by {
        assert(sorted_y.no_duplicates());
    }
}

/// On an even number of distinct points, the freshly built edge lists are
/// matchings over exactly those points.
proof fn lemma_merge_init(
    deduped: Seq<Point>,
    sorted_y: Seq<Point>,
    vertical: Seq<(Point, Point)>,
    horizontal: Seq<(Point, Point)>,
)
    requires
        deduped.no_duplicates(),
        sorted_y.no_duplicates(),
        deduped.len() % 2 == 0,
        sorted_y.len() == deduped.len(),
        forall|p: Point| sorted_y.contains(p) <==> deduped.contains(p),
        vertical == pairs_from(deduped, 0),
        horizontal == pairs_from(sorted_y, 0),
    ensures
        merge_clean_inv(vertical, horizontal, Seq::<Hallway>::empty(), deduped),
{
    lemma_pairs_from_matching_rec(deduped, 0);
    lemma_pairs_from_matching_rec(sorted_y, 0);
    assert forall|p: Point| has_key(vertical, p) <==> has_key(horizontal, p) by {
        assert(has_key(vertical, p) <==> deduped.contains(p));
        assert(has_key(horizontal, p) <==> sorted_y.contains(p));
    }
}

/// When the vertical edge list of a clean run is exhausted, every distinct
/// point has been retired into a hallway.
proof fn lemma_merge_finish(
    vertical: Seq<(Point, Point)>,
    horizontal: Seq<(Point, Point)>,
    hallways: Seq<Hallway>,
    deduped: Seq<Point>,
    points: Seq<Point>,
)
    requires
        merge_clean_inv(vertical, horizontal, hallways, deduped),
        vertical.len() <= 1,
        forall|p: Point| deduped.contains(p) <==> points.contains(p),
    ensures
        vertical.len() == 0,
        forall|p: Point| points.contains(p) ==> covered(hallways, p),
{
    if vertical.len() == 1 {
        assert(vertical.contains((vertical[0].1, vertical[0].0)));
        let t = choose|t: int|
            0 <= t < vertical.len() && (#[trigger] vertical[t]) == (vertical[0].1, vertical[0].0);
        assert(false);
    }
    assert forall|p: Point| points.contains(p) implies covered(hallways, p) by {
        assert(deduped.contains(p));
        assert(!has_key(vertical, p));
    }
}

/// Two distinct points in the input give two entries in the deduplicated
/// sequence.
proof fn lemma_two_distinct_gives_two(points: Seq<Point>, deduped: Seq<Point>)
    requires
        forall|p: Point| deduped.contains(p) <==> points.contains(p),
        exists|p: Point, q: Point| points.contains(p) && points.contains(q) && p != q,
    ensures
        deduped.len() >= 2,
{
    let (p, q) = choose|p: Point, q: Point|
        points.contains(p) && points.contains(q) && p != q;
    assert(deduped.contains(p));
    assert(deduped.contains(q));
    let a = choose|a: int| 0 <= a < deduped.len() && deduped[a] == p;
    let b = choose|b: int| 0 <= b < deduped.len() && deduped[b] == q;
    assert(a != b);
}

/// Wraps up a finished run: the clean-case partition facts and the cycle
/// guarantee, witnessed by the two sorted point sequences.
proof fn lemma_merge_epilogue(
    vertical: Seq<(Point, Point)>,
    horizontal: Seq<(Point, Point)>,
    hallways: Seq<Hallway>,
    points: Seq<Point>,
    sorted_x: Seq<Point>,
    deduped: Seq<Point>,
    sorted_y: Seq<Point>,
    clean: bool,
    axis: bool,
)
    requires
        sorted_x.to_multiset() == points.to_multiset(),
        sorted_in(false, sorted_x),
        sorted_in(false, deduped),
        forall|p: Point| deduped.contains(p) <==> sorted_x.contains(p),
        forall|i: int| 0 <= i < deduped.len() - 1 ==> (#[trigger] deduped[i]) != deduped[i + 1],
        sorted_y.to_multiset() == deduped.to_multiset(),
        sorted_in(true, sorted_y),
        clean == (deduped.len() % 2 == 0),
        axis == pairs_axis_aligned(pairs_from(deduped, 0), pairs_from(sorted_y, 0)),
        vertical.len() <= 1,
        clean ==> merge_clean_inv(vertical, horizontal, hallways, deduped),
        forall|i: int|
            0 <= i < hallways.len() ==> cycle_alternates(
                (#[trigger] hallways[i]).spec_points(),
                pairs_from(deduped, 0),
                pairs_from(sorted_y, 0),
            ),
        clean && axis ==> (forall|i: int|
            0 <= i < hallways.len() ==> (#[trigger] hallways[i]).spec_points().len() >= 4),
    ensures
        clean == distinct_point_count_even(points),
        clean ==> hallways_partition(hallways, points),
        exists|sx: Seq<Point>, sy: Seq<Point>| hallway_cycles_over(hallways, points, sx, sy),
{
    lemma_merge_setup(points, sorted_x, deduped, sorted_y);
    if clean {
        lemma_merge_finish(vertical, horizontal, hallways, deduped, points);
        assert(hallways_clean(vertical, hallways));
        assert(hallways_partition(hallways, points)) by {
            reveal(hallways_partition);
        }
    }
    assert(hallway_cycles_over(hallways, points, deduped, sorted_y)) by {
        reveal(hallway_cycles_over);
    }
}

/// Consuming the start point's horizontal edge opens a cycle.
proof fn lemma_trace_begin(
    vertical: Seq<(Point, Point)>,
    h_pre: Seq<(Point, Point)>,
    h_now: Seq<(Point, Point)>,
    hs: Seq<Hallway>,
    deduped: Seq<Point>,
    start: Point,
    first_hop: Point,
)
    requires
        merge_clean_inv(vertical, h_pre, hs, deduped),
        has_key(vertical, start),
        h_pre.contains((start, first_hop)),
        first_hop != start,
        is_matching(h_now),
        forall|p: Point|
            has_key(h_now, p) <==> (has_key(h_pre, p) && p != start && p != first_hop),
    ensures
        trace_clean_inv(vertical, h_now, hs, seq![start, first_hop], deduped, start, first_hop),
        has_key(vertical, first_hop),
{
    let cycle = seq![start, first_hop];
    assert(h_pre.contains((first_hop, start)));
    assert(has_key(h_pre, first_hop));
    assert(has_key(vertical, first_hop));
    assert(cycle.len() == 2 && cycle[0] == start && cycle[1] == first_hop);
    assert(cycle.last() == first_hop);
    assert(cycle.no_duplicates());
    assert forall|p: Point| deduped.contains(p) <==> (has_key(vertical, p) || covered(hs, p)
        || cycle.contains(p)) by {
        if cycle.contains(p) {
            assert(p == start || p == first_hop);
        }
    }
    assert forall|k: int, i: int, j: int|
        0 <= k < cycle.len() && 0 <= i < hs.len() && 0 <= j < hs[i].spec_points().len()
            implies #[trigger] cycle[k] != #[trigger] (hs[i].spec_points()[j]) by {
        assert(has_key(vertical, cycle[k]));
        assert(!has_key(vertical, hs[i].spec_points()[j]));
    }
}

/// One alternating step: consuming the current point's vertical edge and
/// the far end's horizontal edge extends the cycle by two fresh points.
proof fn lemma_trace_step(
    v_pre: Seq<(Point, Point)>,
    v_now: Seq<(Point, Point)>,
    h_pre: Seq<(Point, Point)>,
    h_now: Seq<(Point, Point)>,
    hs: Seq<Hallway>,
    cycle0: Seq<Point>,
    deduped: Seq<Point>,
    start: Point,
    old_current: Point,
    vp: Point,
    hp: Point,
)
    requires
        trace_clean_inv(v_pre, h_pre, hs, cycle0, deduped, start, old_current),
        v_pre.contains((old_current, vp)),
        vp != old_current,
        vp != start,
        is_matching(v_now),
        forall|p: Point|
            has_key(v_now, p) <==> (has_key(v_pre, p) && p != old_current && p != vp),
        h_pre.contains((vp, hp)),
        hp != vp,
        is_matching(h_now),
        forall|p: Point| has_key(h_now, p) <==> (has_key(h_pre, p) && p != vp && p != hp),
    ensures
        trace_clean_inv(v_now, h_now, hs, cycle0.push(vp).push(hp), deduped, start, hp),
        deduped.contains(vp),
        deduped.contains(hp),
{
    let cycle = cycle0.push(vp).push(hp);
    assert(v_pre.contains((vp, old_current)));
    assert(has_key(v_pre, vp));
    assert(h_pre.contains((hp, vp)));
    assert(has_key(h_pre, hp));
    assert(has_key(v_pre, hp) && hp != start && hp != old_current);
    assert(deduped.contains(vp));
    assert(deduped.contains(hp));
    assert(has_key(v_now, start));
    assert(has_key(v_now, hp));
    // the two new points are fresh, so the cycle stays duplicate-free
    assert forall|i: int| 0 <= i < cycle0.len() implies cycle0[i] != vp by {
        if i == 0 {
        } else if i == cycle0.len() - 1 {
        } else {
            assert(!has_key(v_pre, cycle0[i]));
        }
    }
    assert forall|i: int| 0 <= i < cycle0.len() implies cycle0[i] != hp by {
        assert(!has_key(h_pre, cycle0[i]));
    }
    assert(cycle.no_duplicates());
    assert(cycle.len() == cycle0.len() + 2);
    assert(cycle[0] == cycle0[0]);
    assert(cycle.last() == hp);
    assert forall|p: Point| has_key(h_now, p) <==> (has_key(v_now, p) && p != start && p != hp)
        by {
        assert(has_key(h_pre, p) <==> (has_key(v_pre, p) && p != start && p != old_current));
    }
    assert forall|i: int| 0 < i < cycle.len() - 1 implies !has_key(v_now, #[trigger] cycle[i])
        by {
        if i < cycle0.len() - 1 {
            assert(cycle[i] == cycle0[i]);
            assert(!has_key(v_pre, cycle0[i]));
        } else if i == cycle0.len() - 1 {
            assert(cycle[i] == old_current);
        } else {
            assert(cycle[i] == vp);
        }
    }
    assert forall|i: int| 0 <= i < cycle.len() implies !has_key(h_now, #[trigger] cycle[i]) by {
        if i < cycle0.len() {
            assert(cycle[i] == cycle0[i]);
            assert(!has_key(h_pre, cycle0[i]));
        } else if i == cycle0.len() {
            assert(cycle[i] == vp);
        } else {
            assert(cycle[i] == hp);
        }
    }
    assert forall|p: Point| deduped.contains(p) <==> (has_key(v_now, p) || covered(hs, p)
        || cycle.contains(p)) by {
        if deduped.contains(p) {
            if has_key(v_pre, p) {
                if p == old_current {
                    assert(cycle[cycle0.len() - 1] == p);
                    assert(cycle.contains(p));
                } else if p == vp {
                    assert(cycle[cycle0.len() as int] == p);
                    assert(cycle.contains(p));
                } else {
                    assert(has_key(v_now, p));
                }
            } else if cycle0.contains(p) {
                let j = choose|j: int| 0 <= j < cycle0.len() && cycle0[j] == p;
                assert(cycle[j] == p);
                assert(cycle.contains(p));
            }
        }
        if has_key(v_now, p) {
            assert(has_key(v_pre, p));
        }
        if cycle.contains(p) {
            let j = choose|j: int| 0 <= j < cycle.len() && cycle[j] == p;
            if j < cycle0.len() {
                assert(cycle0[j] == p);
                assert(cycle0.contains(p));
            } else if j == cycle0.len() {
                assert(p == vp);
            } else {
                assert(p == hp);
            }
        }
    }
    assert forall|k: int, i: int, j: int|
        0 <= k < cycle.len() && 0 <= i < hs.len() && 0 <= j < hs[i].spec_points().len()
            implies #[trigger] cycle[k] != #[trigger] (hs[i].spec_points()[j]) by {
        if k < cycle0.len() {
            assert(cycle[k] == cycle0[k]);
        } else {
            assert(cycle[k] == vp || cycle[k] == hp);
            assert(!has_key(v_pre, hs[i].spec_points()[j]));
        }
    }
}

/// Consuming the closing vertical edge back to the start retires the last
/// two live points of the cycle and emits it as a hallway.
proof fn lemma_trace_close(
    v_pre: Seq<(Point, Point)>,
    v_now: Seq<(Point, Point)>,
    horizontal: Seq<(Point, Point)>,
    hs: Seq<Hallway>,
    hs2: Seq<Hallway>,
    cycle: Seq<Point>,
    deduped: Seq<Point>,
    start: Point,
    current: Point,
)
    requires
        trace_clean_inv(v_pre, horizontal, hs, cycle, deduped, start, current),
        is_matching(v_now),
        forall|p: Point|
            has_key(v_now, p) <==> (has_key(v_pre, p) && p != current && p != start),
        hs2.len() == hs.len() + 1,
        forall|i: int| 0 <= i < hs.len() ==> hs2[i] == hs[i],
        hs2[hs.len() as int].spec_points() == cycle,
    ensures
        merge_clean_inv(v_now, horizontal, hs2, deduped),
{
    assert forall|p: Point| has_key(v_now, p) <==> has_key(horizontal, p) by {
        assert(has_key(horizontal, p) <==> (has_key(v_pre, p) && p != start && p != current));
    }
    assert forall|p: Point| covered(hs2, p) <==> (covered(hs, p) || cycle.contains(p)) by {
        if covered(hs2, p) {
            let (i, j) = choose|i: int, j: int|
                0 <= i < hs2.len() && 0 <= j < hs2[i].spec_points().len() && #[trigger] (
                hs2[i].spec_points()[j]) == p;
            if i < hs.len() {
                assert(hs[i].spec_points()[j] == p);
            } else {
                assert(cycle[j] == p);
            }
        }
        if covered(hs, p) {
            let (i, j) = choose|i: int, j: int|
                0 <= i < hs.len() && 0 <= j < hs[i].spec_points().len() && #[trigger] (
                hs[i].spec_points()[j]) == p;
            assert(hs2[i].spec_points()[j] == p);
        }
        if cycle.contains(p) {
            let j = choose|j: int| 0 <= j < cycle.len() && cycle[j] == p;
            assert(hs2[hs.len() as int].spec_points()[j] == p);
        }
    }
    assert forall|p: Point| deduped.contains(p) <==> (has_key(v_now, p) || covered(hs2, p)) by {
        if deduped.contains(p) {
            if has_key(v_pre, p) && p != current && p != start {
                assert(has_key(v_now, p));
            } else if p == current || p == start {
                assert(cycle.contains(p));
            }
        }
        if has_key(v_now, p) {
            assert(has_key(v_pre, p));
        }
    }
    assert forall|i: int, j: int|
        0 <= i < hs2.len() && 0 <= j < hs2[i].spec_points().len() implies !has_key(
        v_now,
        #[trigger] (hs2[i].spec_points()[j]),
    ) by {
        if i < hs.len() {
            assert(hs2[i].spec_points()[j] == hs[i].spec_points()[j]);
            assert(!has_key(v_pre, hs[i].spec_points()[j]));
        } else {
            let p = cycle[j];
            if j == 0 {
                assert(p == start);
            } else if j == cycle.len() - 1 {
                assert(p == current);
            } else {
                assert(!has_key(v_pre, p));
            }
        }
    }
    assert forall|i1: int, j1: int, i2: int, j2: int|
        0 <= i1 < hs2.len() && 0 <= j1 < hs2[i1].spec_points().len() && 0 <= i2 < hs2.len() && 0
            <= j2 < hs2[i2].spec_points().len() && i1 != i2 implies #[trigger] (
    hs2[i1].spec_points()[j1]) != #[trigger] (hs2[i2].spec_points()[j2]) by {
        if i1 < hs.len() && i2 < hs.len() {
            assert(hs2[i1].spec_points()[j1] == hs[i1].spec_points()[j1]);
            assert(hs2[i2].spec_points()[j2] == hs[i2].spec_points()[j2]);
        } else if i1 < hs.len() {
            assert(hs2[i2].spec_points()[j2] == cycle[j2]);
            assert(cycle[j2] != hs[i1].spec_points()[j1]);
        } else {
            assert(hs2[i1].spec_points()[j1] == cycle[j1]);
            assert(cycle[j1] != hs[i2].spec_points()[j2]);
        }
    }
    assert forall|i: int| 0 <= i < hs2.len() implies (
    #[trigger] hs2[i]).spec_points().no_duplicates() by {
        if i < hs.len() {
            assert(hs2[i].spec_points() == hs[i].spec_points());
        }
    }
}

#[verifier::rlimit(100)]
pub fn merge_points(points: &Vec<Point>) -> (result: Result<Vec<Hallway>, MergeError>)
    ensures
        points@.len() == 0 ==> result is Ok,
        distinct_point_count_even(points@) ==> result is Ok,
        match result {
            Ok(hs) => {
                &&& points@.len() == 0 ==> hs@.len() == 0
                &&& forall|i: int| 0 <= i < hs@.len() ==> (#[trigger] hs@[i]).spec_points().len()
                    >= 2
                &&& forall|i: int, j: int|
                    0 <= i < hs@.len() && 0 <= j < hs@[i].spec_points().len() ==> points@.contains(
                        #[trigger] hs@[i].spec_points()[j],
                    )
                &&& (exists|p: Point, q: Point|
                    points@.contains(p) && points@.contains(q) && p != q) ==> hs@.len() >= 1
                &&& distinct_point_count_even(points@) ==> hallways_partition(hs@, points@)
                &&& exists|sx: Seq<Point>, sy: Seq<Point>|
                    hallway_cycles_over(hs@, points@, sx, sy)
            },
            Err(_) => !distinct_point_count_even(points@),
        },
{
    let sorted_x = sort_points(points, false);
    let deduped = dedup_points(&sorted_x);
    let mut vertical = build_edges(&deduped);
    let sorted_y = sort_points(&deduped, true);
    let mut horizontal = build_edges(&sorted_y);
    let ghost all_points = points@;
    let ghost initial_vertical_len = vertical@.len();
    let ghost vpairs = vertical@;
    let ghost hpairs = horizontal@;
    let ghost clean = deduped@.len() % 2 == 0;
    let ghost axis = pairs_axis_aligned(vpairs, hpairs);
    proof {
        lemma_merge_setup(points@, sorted_x@, deduped@, sorted_y@);
        lemma_edges_in_superset(vertical@, deduped@, all_points);
        lemma_edges_in_superset(horizontal@, sorted_y@, all_points);
        if points@.len() == 0 {
            assert(sorted_x@.len() == 0);
            if deduped@.len() > 0 {
                assert(deduped@.contains(deduped@[0]));
                assert(sorted_x@.contains(deduped@[0]));
            }
        }
        if clean {
            lemma_merge_init(deduped@, sorted_y@, vertical@, horizontal@);
        }
    }
    let mut hallways: Vec<Hallway> = Vec::new();
    while vertical.len() > 1
        invariant
            edges_in(vertical@, all_points),
            edges_in(horizontal@, all_points),
            forall|j: int| 0 <= j < vertical@.len() ==> vpairs.contains(#[trigger] vertical@[j]),
            forall|j: int|
                0 <= j < horizontal@.len() ==> hpairs.contains(#[trigger] horizontal@[j]),
            forall|i: int| 0 <= i < hallways@.len() ==> (#[trigger] hallways@[i]).spec_points().len()
                >= 2,
            forall|i: int, j: int|
                0 <= i < hallways@.len() && 0 <= j < hallways@[i].spec_points().len()
                    ==> all_points.contains(#[trigger] hallways@[i].spec_points()[j]),
            forall|i: int|
                0 <= i < hallways@.len() ==> cycle_alternates(
                    (#[trigger] hallways@[i]).spec_points(),
                    vpairs,
                    hpairs,
                ),
            all_points.len() == 0 ==> vertical@.len() == 0 && hallways@.len() == 0,
            all_points == points@,
            vertical@.len() <= initial_vertical_len,
            vertical@.len() < initial_vertical_len ==> hallways@.len() >= 1,
            clean == distinct_point_count_even(points@),
            forall|p: Point| deduped@.contains(p) <==> all_points.contains(p),
            clean ==> merge_clean_inv(vertical@, horizontal@, hallways@, deduped@),
            axis == pairs_axis_aligned(vpairs, hpairs),
            clean && axis ==> (forall|i: int|
                0 <= i < hallways@.len() ==> (#[trigger] hallways@[i]).spec_points().len() >= 4),
        decreases vertical@.len() + horizontal@.len(),
    {
        let ghost v0 = vertical@;
        let ghost h0 = horizontal@;
        let mut cycle: Vec<Point> = Vec::new();
        let start = vertical[0].1;
        cycle.push(start);
        proof {
            if clean {
                assert(vertical@.contains((vertical@[0].1, vertical@[0].0)));
                assert(has_key(vertical@, start));
            }
        }
        let ghost h_pre = horizontal@;
        let first_hop = match edges_remove_pair(&mut horizontal, &start) {
            Some(p) => p,
            None => {
                proof {
                    if clean {
                        assert(has_key(h_pre, start));
                        assert(false);
                    }
                }
                return Err(MergeError::MissingHorizontalEdge);
            },
        };
        proof {
            lemma_entries_subset_trans(horizontal@, h_pre, hpairs);
            let t = choose|t: int| 0 <= t < h_pre.len() && (#[trigger] h_pre[t]) == (
            start,
            first_hop,
            );
            assert(hpairs.contains((start, first_hop)));
            if clean {
                lemma_trace_begin(
                    vertical@,
                    h_pre,
                    horizontal@,
                    hallways@,
                    deduped@,
                    start,
                    first_hop,
                );
            }
        }
        cycle.push(first_hop);
        proof {
            assert(cycle@ == seq![start, first_hop]);
            assert(cycle@[0] == start && cycle@[1] == first_hop);
            assert(pair_at(cycle@, vpairs, hpairs, 0));
        }
        let mut current = first_hop;
        let mut next = match edges_lookup(&vertical, &current) {
            Some(p) => p,
            None => {
                proof {
                    if clean {
                        assert(has_key(vertical@, first_hop));
                        assert(false);
                    }
                }
                return Err(MergeError::MissingVerticalEdge);
            },
        };
        proof {
            let t = choose|t: int| 0 <= t < vertical@.len() && (#[trigger] vertical@[t]) == (
            current,
            next,
            );
            assert(vertical@.contains((current, next)));
        }
        while !(next == start)
            invariant
                edges_in(vertical@, all_points),
                edges_in(horizontal@, all_points),
                forall|j: int|
                    0 <= j < vertical@.len() ==> vpairs.contains(#[trigger] vertical@[j]),
                forall|j: int|
                    0 <= j < horizontal@.len() ==> hpairs.contains(#[trigger] horizontal@[j]),
                forall|i: int| 0 <= i < cycle@.len() ==> all_points.contains(#[trigger] cycle@[i]),
                cycle@.len() >= 2,
                cycle@.len() % 2 == 0,
                cycle@[0] == start,
                cycle@.last() == current,
                forall|k: int| 0 <= k < cycle@.len() - 1 ==> #[trigger] pair_at(
                    cycle@,
                    vpairs,
                    hpairs,
                    k,
                ),
                vertical@.contains((current, next)),
                all_points.contains(current),
                all_points == points@,
                all_points.len() > 0,
                vertical@.len() <= v0.len(),
                horizontal@.len() < h0.len(),
                clean == distinct_point_count_even(points@),
                forall|p: Point| deduped@.contains(p) <==> all_points.contains(p),
                clean ==> trace_clean_inv(
                    vertical@,
                    horizontal@,
                    hallways@,
                    cycle@,
                    deduped@,
                    start,
                    current,
                ),
                axis == pairs_axis_aligned(vpairs, hpairs),
                clean && axis ==> (forall|i: int|
                    0 <= i < hallways@.len() ==> (#[trigger] hallways@[i]).spec_points().len()
                        >= 4),
            decreases vertical@.len() + horizontal@.len(),
        {
            let ghost v_pre = vertical@;
            let ghost cycle0 = cycle@;
            let vertical_partner = match edges_remove_pair(&mut vertical, &current) {
                Some(q) => q,
                None => {
                    proof {
                        if clean {
                            assert(has_key(v_pre, current));
                            assert(false);
                        }
                    }
                    return Err(MergeError::MissingVerticalEdge);
                },
            };
            proof {
                lemma_entries_subset_trans(vertical@, v_pre, vpairs);
                let t = choose|t: int| 0 <= t < v_pre.len() && (#[trigger] v_pre[t]) == (
                current,
                vertical_partner,
                );
                assert(vpairs.contains((current, vertical_partner)));
                if clean {
                    // the partner is the looked-up point: keys occur once
                    let a = choose|a: int|
                        0 <= a < v_pre.len() && (#[trigger] v_pre[a]) == (current, next);
                    let b = choose|b: int|
                        0 <= b < v_pre.len() && (#[trigger] v_pre[b]) == (
                        current,
                        vertical_partner,
                        );
                    assert(a == b);
                    assert(vertical_partner == next);
                }
            }
            cycle.push(vertical_partner);
            proof {
                assert(cycle@ == cycle0.push(vertical_partner));
                assert forall|k: int| 0 <= k < cycle@.len() - 1 implies #[trigger] pair_at(
                    cycle@,
                    vpairs,
                    hpairs,
                    k,
                ) by {
                    if k < cycle0.len() - 1 {
                        assert(pair_at(cycle0, vpairs, hpairs, k));
                        assert(cycle@[k] == cycle0[k] && cycle@[k + 1] == cycle0[k + 1]);
                    } else {
                        assert(k == cycle0.len() - 1);
                        assert(cycle@[k] == current && cycle@[k + 1] == vertical_partner);
                        assert(k % 2 == 1);
                    }
                }
            }
            let ghost v_mid = vertical@;
            let ghost old_current = current;
            current = vertical_partner;
            let ghost h_pre3 = horizontal@;
            let ghost cycle1 = cycle@;
            proof {
                if clean {
                    // the far end still holds its horizontal key
                    assert(v_pre.contains((vertical_partner, old_current)));
                    assert(has_key(v_pre, vertical_partner));
                    assert(has_key(h_pre3, vertical_partner));
                }
            }
            let horizontal_partner = match edges_remove_pair(&mut horizontal, &current) {
                Some(p) => p,
                None => {
                    proof {
                        if clean {
                            assert(false);
                        }
                    }
                    return Err(MergeError::MissingHorizontalEdge);
                },
            };
            proof {
                lemma_entries_subset_trans(horizontal@, h_pre3, hpairs);
                let t = choose|t: int| 0 <= t < h_pre3.len() && (#[trigger] h_pre3[t]) == (
                current,
                horizontal_partner,
                );
                assert(hpairs.contains((current, horizontal_partner)));
            }
            cycle.push(horizontal_partner);
            proof {
                assert(cycle@ == cycle1.push(horizontal_partner));
                assert forall|k: int| 0 <= k < cycle@.len() - 1 implies #[trigger] pair_at(
                    cycle@,
                    vpairs,
                    hpairs,
                    k,
                ) by {
                    if k < cycle1.len() - 1 {
                        assert(pair_at(cycle1, vpairs, hpairs, k));
                        assert(cycle@[k] == cycle1[k] && cycle@[k + 1] == cycle1[k + 1]);
                    } else {
                        assert(k == cycle1.len() - 1);
                        assert(cycle@[k] == current && cycle@[k + 1] == horizontal_partner);
                        assert(k % 2 == 0);
                    }
                }
                if clean {
                    lemma_trace_step(
                        v_pre,
                        vertical@,
                        h_pre3,
                        horizontal@,
                        hallways@,
                        cycle0,
                        deduped@,
                        start,
                        old_current,
                        vertical_partner,
                        horizontal_partner,
                    );
                    assert(cycle@ == cycle0.push(vertical_partner).push(horizontal_partner));
                }
            }
            current = horizontal_partner;
            next = match edges_lookup(&vertical, &current) {
                Some(p) => p,
                None => {
                    proof {
                        if clean {
                            assert(has_key(vertical@, horizontal_partner));
                            assert(false);
                        }
                    }
                    return Err(MergeError::MissingVerticalEdge);
                },
            };
            proof {
                let t = choose|t: int| 0 <= t < vertical@.len() && (#[trigger] vertical@[t]) == (
                current,
                next,
                );
                assert(vertical@.contains((current, next)));
            }
        }
        proof {
            let t = choose|t: int| 0 <= t < vertical@.len() && (#[trigger] vertical@[t]) == (
            current,
            start,
            );
            assert(vpairs.contains((current, start)));
            assert(cycle@.last() == current && cycle@[0] == start);
        }
        let ghost v_close = vertical@;
        match edges_remove_pair(&mut vertical, &current) {
            Some(q) => {
                proof {
                    lemma_entries_subset_trans(vertical@, v_close, vpairs);
                    if clean {
                        let a = choose|a: int|
                            0 <= a < v_close.len() && (#[trigger] v_close[a]) == (current, start);
                        let b = choose|b: int|
                            0 <= b < v_close.len() && (#[trigger] v_close[b]) == (current, q);
                        assert(a == b);
                        assert(q == start);
                    }
                }
            },
            None => {
                proof {
                    if clean {
                        assert(has_key(v_close, current));
                        assert(false);
                    }
                }
                return Err(MergeError::MissingVerticalEdge);
            },
        }
        proof {
            assert(cycle_alternates(cycle@, vpairs, hpairs));
        }
        let ghost hallways0 = hallways@;
        let ghost final_cycle = cycle@;
        hallways.push(Hallway::new(cycle));
        proof {
            assert forall|i: int| 0 <= i < hallways@.len() implies cycle_alternates(
                (#[trigger] hallways@[i]).spec_points(),
                vpairs,
                hpairs,
            ) by {
                if i < hallways0.len() {
                    assert(hallways@[i] == hallways0[i]);
                }
            }
            if clean && axis {
                assert(final_cycle[0] == start && final_cycle[final_cycle.len() - 1] == current);
                lemma_cycle_at_least_four(final_cycle, vpairs, hpairs);
                assert forall|i: int| 0 <= i < hallways@.len() implies (
                #[trigger] hallways@[i]).spec_points().len() >= 4 by {
                    if i < hallways0.len() {
                        assert(hallways@[i] == hallways0[i]);
                    }
                }
            }
            if clean {
                assert(hallways@[hallways0.len() as int].spec_points() == final_cycle);
                assert forall|i: int| 0 <= i < hallways0.len() implies hallways@[i]
                    == hallways0[i] by {}
                lemma_trace_close(
                    v_close,
                    vertical@,
                    horizontal@,
                    hallways0,
                    hallways@,
                    final_cycle,
                    deduped@,
                    start,
                    current,
                );
            }
        }
    }
    proof {
        if exists|p: Point, q: Point| points@.contains(p) && points@.contains(q) && p != q {
            lemma_two_distinct_gives_two(points@, deduped@);
            assert(initial_vertical_len >= 2);
            assert(hallways@.len() >= 1);
        }
        assert(vpairs == pairs_from(deduped@, 0));
        assert(hpairs == pairs_from(sorted_y@, 0));
        lemma_merge_epilogue(
            vertical@,
            horizontal@,
            hallways@,
            points@,
            sorted_x@,
            deduped@,
            sorted_y@,
            clean,
            axis,
        );
    }
    let ghost hseq = hallways@;
    let result: Result<Vec<Hallway>, MergeError> = Ok(hallways);
    proof {
        assert(result matches Ok(hs) && hs@ == hseq);
    }
    result
}

/// Endpoints recorded over a smaller universe are recorded over any
/// universe that contains it.
proof fn lemma_edges_in_superset(m: Seq<(Point, Point)>, u1: Seq<Point>, u2: Seq<Point>)
    requires
        edges_in(m, u1),
        forall|p: Point| u1.contains(p) ==> u2.contains(p),
    ensures
        edges_in(m, u2),
{
    assert forall|i: int| 0 <= i < m.len() implies u2.contains((#[trigger] m[i]).0) && u2.contains(
        m[i].1,
    ) by {
        assert(u1.contains(m[i].0) && u1.contains(m[i].1));
    }
}

} // verus!
