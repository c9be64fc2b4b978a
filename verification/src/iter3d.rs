//! Lexicographic enumeration of an inclusive 3D cuboid of integer
//! coordinates, in row-major order: the first axis varies fastest, then the
//! second, and the third varies slowest.
//!
//! The enumeration is modeled by `coord_at`, which gives the position at
//! each index, and `rank3`, its inverse. `Iterator3D` walks the enumeration
//! with a cursor; a fresh instance restarts it.

use vstd::arithmetic::div_mod::{
    lemma_div_denominator, lemma_fundamental_div_mod, lemma_fundamental_div_mod_converse,
    lemma_mod_bound, lemma_multiply_divide_lt,
};
use vstd::prelude::*;

verus! {

/// Whether `p` lies in the inclusive cuboid spanned by `start` and `end`.
pub open spec fn in_cuboid(p: (int, int, int), start: (int, int, int), end: (int, int, int)) -> bool {
    &&& start.0 <= p.0 <= end.0
    &&& start.1 <= p.1 <= end.1
    &&& start.2 <= p.2 <= end.2
}

/// Extent of the cuboid along the first axis.
pub open spec fn ext0(start: (int, int, int), end: (int, int, int)) -> int {
    end.0 - start.0 + 1
}

/// Extent of the cuboid along the second axis.
pub open spec fn ext1(start: (int, int, int), end: (int, int, int)) -> int {
    end.1 - start.1 + 1
}

/// Extent of the cuboid along the third axis.
pub open spec fn ext2(start: (int, int, int), end: (int, int, int)) -> int {
    end.2 - start.2 + 1
}

/// Number of positions in the inclusive cuboid: the product of the three
/// extents.
pub open spec fn cuboid_volume(start: (int, int, int), end: (int, int, int)) -> int {
    ext0(start, end) * ext1(start, end) * ext2(start, end)
}

/// The position at index `k` of the row-major enumeration of the cuboid.
pub open spec fn coord_at(start: (int, int, int), end: (int, int, int), k: int) -> (int, int, int) {
    let e0 = ext0(start, end);
    let e1 = ext1(start, end);
    (start.0 + k % e0, start.1 + (k / e0) % e1, start.2 + k / (e0 * e1))
}

/// The index at which position `p` appears in the row-major enumeration.
pub open spec fn rank3(start: (int, int, int), end: (int, int, int), p: (int, int, int)) -> int {
    let e0 = ext0(start, end);
    let e1 = ext1(start, end);
    (p.0 - start.0) + e0 * ((p.1 - start.1) + e1 * (p.2 - start.2))
}

/// `rank3` inverts `coord_at`: a cuboid position has an index inside the
/// enumeration, and the enumeration at that index gives the position back.
pub proof fn lemma_rank_coord(start: (int, int, int), end: (int, int, int), p: (int, int, int))
    requires
        in_cuboid(p, start, end),
    ensures
        0 <= rank3(start, end, p) < cuboid_volume(start, end),
        coord_at(start, end, rank3(start, end, p)) == p,
{
    let e0 = ext0(start, end);
    let e1 = ext1(start, end);
    let e2 = ext2(start, end);
    let d0 = p.0 - start.0;
    let d1 = p.1 - start.1;
    let d2 = p.2 - start.2;
    let k = rank3(start, end, p);
    let m = d1 + e1 * d2;
    assert(0 <= m < e1 * e2) by (nonlinear_arith)
        requires
            m == d1 + e1 * d2,
            0 <= d1 < e1,
            0 <= d2 < e2,
            e1 >= 1,
            e2 >= 1,
    ;
    assert(k == m * e0 + d0) by (nonlinear_arith)
        requires
            k == d0 + e0 * (d1 + e1 * d2),
            m == d1 + e1 * d2,
    ;
    assert(0 <= k < cuboid_volume(start, end)) by (nonlinear_arith)
        requires
            k == m * e0 + d0,
            0 <= d0 < e0,
            0 <= m < e1 * e2,
            e0 >= 1,
            cuboid_volume(start, end) == e0 * e1 * e2,
    ;
    lemma_fundamental_div_mod_converse(k, e0, m, d0);
    assert(k / e0 == m && k % e0 == d0);
    assert(m == d2 * e1 + d1) by (nonlinear_arith)
        requires
            m == d1 + e1 * d2,
    ;
    lemma_fundamental_div_mod_converse(m, e1, d2, d1);
    assert(m % e1 == d1);
    assert(k == d2 * (e0 * e1) + (d0 + e0 * d1)) by (nonlinear_arith)
        requires
            k == d0 + e0 * (d1 + e1 * d2),
    ;
    assert(0 <= d0 + e0 * d1 < e0 * e1) by (nonlinear_arith)
        requires
            0 <= d0 < e0,
            0 <= d1 < e1,
            e0 >= 1,
            e1 >= 1,
    ;
    lemma_fundamental_div_mod_converse(k, e0 * e1, d2, d0 + e0 * d1);
    assert(k / (e0 * e1) == d2);
}

/// Every index inside the enumeration maps to a cuboid position, and
/// `coord_at` inverts `rank3` there as well.
pub proof fn lemma_coord_rank(start: (int, int, int), end: (int, int, int), k: int)
    requires
        start.0 <= end.0,
        start.1 <= end.1,
        start.2 <= end.2,
        0 <= k < cuboid_volume(start, end),
    ensures
        in_cuboid(coord_at(start, end, k), start, end),
        rank3(start, end, coord_at(start, end, k)) == k,
{
    let e0 = ext0(start, end);
    let e1 = ext1(start, end);
    let e2 = ext2(start, end);
    let d0 = k % e0;
    let d1 = (k / e0) % e1;
    let d2 = k / (e0 * e1);
    lemma_mod_bound(k, e0);
    lemma_mod_bound(k / e0, e1);
    assert(e0 * e1 >= 1) by (nonlinear_arith)
        requires
            e0 >= 1,
            e1 >= 1,
    ;
    assert(k < (e0 * e1) * e2) by (nonlinear_arith)
        requires
            k < cuboid_volume(start, end),
            cuboid_volume(start, end) == e0 * e1 * e2,
    ;
    lemma_multiply_divide_lt(k, e0 * e1, e2);
    assert(d2 >= 0) by {
        lemma_fundamental_div_mod(k, e0 * e1);
        lemma_mod_bound(k, e0 * e1);
        assert(d2 >= 0) by (nonlinear_arith)
            requires
                k == (e0 * e1) * d2 + k % (e0 * e1),
                0 <= k % (e0 * e1) < e0 * e1,
                k >= 0,
                e0 * e1 >= 1,
        ;
    }
    lemma_div_denominator(k, e0, e1);
    assert((k / e0) / e1 == d2);
    lemma_fundamental_div_mod(k, e0);
    lemma_fundamental_div_mod(k / e0, e1);
    assert(k / e0 == e1 * d2 + d1);
    assert(k == e0 * (k / e0) + d0);
    assert(rank3(start, end, coord_at(start, end, k)) == d0 + e0 * (d1 + e1 * d2));
    assert(d0 + e0 * (d1 + e1 * d2) == k) by (nonlinear_arith)
        requires
            k == e0 * (e1 * d2 + d1) + d0,
    ;
}

/// Whether `p` comes before `q` in row-major order: the third axis is the
/// most significant, then the second, and the first axis varies fastest.
pub open spec fn lex_before(p: (int, int, int), q: (int, int, int)) -> bool {
    ||| p.2 < q.2
    ||| (p.2 == q.2 && p.1 < q.1)
    ||| (p.2 == q.2 && p.1 == q.1 && p.0 < q.0)
}

/// Positions earlier in row-major order have smaller enumeration indices.
proof fn lemma_lex_rank(start: (int, int, int), end: (int, int, int), p: (int, int, int), q: (int, int, int))
    requires
        in_cuboid(p, start, end),
        in_cuboid(q, start, end),
        lex_before(p, q),
    ensures
        rank3(start, end, p) < rank3(start, end, q),
{
    let e0 = ext0(start, end);
    let e1 = ext1(start, end);
    let dp = (p.0 - start.0, p.1 - start.1, p.2 - start.2);
    let dq = (q.0 - start.0, q.1 - start.1, q.2 - start.2);
    if p.2 < q.2 {
        assert(dp.0 + e0 * (dp.1 + e1 * dp.2) < dq.0 + e0 * (dq.1 + e1 * dq.2))
            by (nonlinear_arith)
            requires
                0 <= dp.0 < e0,
                0 <= dp.1 < e1,
                0 <= dq.0,
                0 <= dq.1,
                dp.2 + 1 <= dq.2,
                e0 >= 1,
                e1 >= 1,
        ;
    } else if p.1 < q.1 {
        assert(dp.0 + e0 * (dp.1 + e1 * dp.2) < dq.0 + e0 * (dq.1 + e1 * dq.2))
            by (nonlinear_arith)
            requires
                0 <= dp.0 < e0,
                0 <= dq.0,
                dp.1 + 1 <= dq.1,
                dp.2 == dq.2,
                e0 >= 1,
    ;
    } else {
        assert(dp.0 + e0 * (dp.1 + e1 * dp.2) < dq.0 + e0 * (dq.1 + e1 * dq.2))
            by (nonlinear_arith)
            requires
                dp.0 < dq.0,
                dp.1 == dq.1,
                dp.2 == dq.2,
        ;
    }
}

/// Law: the row-major enumeration of the inclusive cuboid `[start, end]`
/// has exactly `cuboid_volume(start, end)` positions, the product of the
/// three extents; the first is `start` and the last is `end`; no two
/// indices yield the same position; every index yields a position inside
/// the cuboid and every cuboid position is yielded; and indices are ordered
/// exactly as positions are in row-major order (first axis fastest).
pub proof fn lemma_enumeration(start: (int, int, int), end: (int, int, int))
    requires
        start.0 <= end.0,
        start.1 <= end.1,
        start.2 <= end.2,
    ensures
        cuboid_volume(start, end) >= 1,
        coord_at(start, end, 0) == start,
        coord_at(start, end, cuboid_volume(start, end) - 1) == end,
        forall|k1: int, k2: int|
            0 <= k1 < k2 < cuboid_volume(start, end) ==> coord_at(start, end, k1) != coord_at(
                start,
                end,
                k2,
            ),
        forall|k: int|
            0 <= k < cuboid_volume(start, end) ==> in_cuboid(
                #[trigger] coord_at(start, end, k),
                start,
                end,
            ),
        forall|p: (int, int, int)|
            in_cuboid(p, start, end) ==> 0 <= #[trigger] rank3(start, end, p) < cuboid_volume(
                start,
                end,
            ) && coord_at(start, end, rank3(start, end, p)) == p,
        forall|p: (int, int, int), q: (int, int, int)|
            in_cuboid(p, start, end) && in_cuboid(q, start, end) ==> (#[trigger] rank3(start, end, p)
                < #[trigger] rank3(start, end, q) <==> lex_before(p, q)),
{
    let e0 = ext0(start, end);
    let e1 = ext1(start, end);
    let e2 = ext2(start, end);
    let vol = cuboid_volume(start, end);
    assert(vol >= 1) by (nonlinear_arith)
        requires
            vol == e0 * e1 * e2,
            e0 >= 1,
            e1 >= 1,
            e2 >= 1,
    ;
    assert(e1 * 0 == 0) by (nonlinear_arith);
    assert(e0 * 0 == 0) by (nonlinear_arith);
    assert(rank3(start, end, start) == 0);
    lemma_rank_coord(start, end, start);
    assert(rank3(start, end, end) == vol - 1) by (nonlinear_arith)
        requires
            rank3(start, end, end) == (e0 - 1) + e0 * ((e1 - 1) + e1 * (e2 - 1)),
            vol == e0 * e1 * e2,
            e0 == end.0 - start.0 + 1,
            e1 == end.1 - start.1 + 1,
            e2 == end.2 - start.2 + 1,
    ;
    lemma_rank_coord(start, end, end);
    assert forall|k1: int, k2: int| 0 <= k1 < k2 < vol implies coord_at(start, end, k1)
        != coord_at(start, end, k2) by {
        lemma_coord_rank(start, end, k1);
        lemma_coord_rank(start, end, k2);
    }
    assert forall|k: int| 0 <= k < vol implies in_cuboid(
        #[trigger] coord_at(start, end, k),
        start,
        end,
    ) by {
        lemma_coord_rank(start, end, k);
    }
    assert forall|p: (int, int, int)| in_cuboid(p, start, end) implies 0 <= #[trigger] rank3(
        start,
        end,
        p,
    ) < vol && coord_at(start, end, rank3(start, end, p)) == p by {
        lemma_rank_coord(start, end, p);
    }
    assert forall|p: (int, int, int), q: (int, int, int)|
        in_cuboid(p, start, end) && in_cuboid(q, start, end) implies (#[trigger] rank3(
        start,
        end,
        p,
    ) < #[trigger] rank3(start, end, q) <==> lex_before(p, q)) by {
        if lex_before(p, q) {
            lemma_lex_rank(start, end, p, q);
        } else if p != q {
            lemma_lex_rank(start, end, q, p);
        }
    }
}

/// Walks the row-major enumeration of an inclusive cuboid of `i32`
/// coordinate triples. The cursor holds the next position to yield, or
/// `None` once the enumeration is exhausted.
pub struct Iterator3D {
    start: (i32, i32, i32),
    end: (i32, i32, i32),
    current: Option<(i32, i32, i32)>,
}

impl Iterator3D {
    /// The lower corner, as mathematical integers.
    pub closed spec fn spec_start(&self) -> (int, int, int) {
        (self.start.0 as int, self.start.1 as int, self.start.2 as int)
    }

    /// The upper corner, as mathematical integers.
    pub closed spec fn spec_end(&self) -> (int, int, int) {
        (self.end.0 as int, self.end.1 as int, self.end.2 as int)
    }

    /// The corners span a cuboid and the cursor, if present, lies inside it.
    pub closed spec fn wf(&self) -> bool {
        &&& self.spec_start().0 <= self.spec_end().0
        &&& self.spec_start().1 <= self.spec_end().1
        &&& self.spec_start().2 <= self.spec_end().2
        &&& match self.current {
            Some(c) => in_cuboid((c.0 as int, c.1 as int, c.2 as int), self.spec_start(), self.spec_end()),
            None => true,
        }
    }

    /// How many positions have been yielded so far.
    pub closed spec fn index(&self) -> int {
        match self.current {
            Some(c) => rank3(self.spec_start(), self.spec_end(), (c.0 as int, c.1 as int, c.2 as int)),
            None => cuboid_volume(self.spec_start(), self.spec_end()),
        }
    }

    /// A fresh enumeration of the inclusive cuboid `[start, end]`. A range
    /// inverted on some axis has no cuboid to walk; it degenerates to the
    /// single-point enumeration of `start`, so the initial `start` is still
    /// yielded once before exhaustion is detected.
    pub fn new(start: (i32, i32, i32), end: (i32, i32, i32)) -> (r: Self)
        ensures
            r.wf(),
            r.spec_start() == (start.0 as int, start.1 as int, start.2 as int),
            start.0 <= end.0 && start.1 <= end.1 && start.2 <= end.2 ==> r.spec_end() == (
                end.0 as int,
                end.1 as int,
                end.2 as int,
            ),
            !(start.0 <= end.0 && start.1 <= end.1 && start.2 <= end.2) ==> r.spec_end() == (
                start.0 as int,
                start.1 as int,
                start.2 as int,
            ),
            r.index() == 0,
    {
        let last = if start.0 <= end.0 && start.1 <= end.1 && start.2 <= end.2 {
            end
        } else {
            start
        };
        let r = Self { start, end: last, current: Some(start) };
        proof {
            let s = r.spec_start();
            let e = r.spec_end();
            assert(ext1(s, e) * 0 == 0) by (nonlinear_arith);
            assert(ext0(s, e) * 0 == 0) by (nonlinear_arith);
            assert(rank3(s, e, s) == 0);
        }
        r
    }

    /// A fresh enumeration of the half-open cuboid `[start, end)`,
    /// normalized to the inclusive cuboid `[start, end - 1]` per axis. Each
    /// axis of the half-open range must be nonempty.
    pub fn new_exclusive(start: (i32, i32, i32), end: (i32, i32, i32)) -> (r: Self)
        requires
            start.0 < end.0,
            start.1 < end.1,
            start.2 < end.2,
        ensures
            r.wf(),
            r.spec_start() == (start.0 as int, start.1 as int, start.2 as int),
            r.spec_end() == (end.0 as int - 1, end.1 as int - 1, end.2 as int - 1),
            r.index() == 0,
    {
        Self::new(start, (end.0 - 1, end.1 - 1, end.2 - 1))
    }

    /// Yields the position at the current index and advances, or reports
    /// exhaustion. The last yielded position is the cuboid's upper corner.
    pub fn next(&mut self) -> (r: Option<(i32, i32, i32)>)
        requires
            old(self).wf(),
        ensures
            final(self).wf(),
            final(self).spec_start() == old(self).spec_start(),
            final(self).spec_end() == old(self).spec_end(),
            old(self).index() < cuboid_volume(old(self).spec_start(), old(self).spec_end()) ==> {
                &&& r matches Some(c) && (c.0 as int, c.1 as int, c.2 as int) == coord_at(
                    old(self).spec_start(),
                    old(self).spec_end(),
                    old(self).index(),
                )
                &&& final(self).index() == old(self).index() + 1
            },
            old(self).index() == cuboid_volume(old(self).spec_start(), old(self).spec_end()) ==> {
                &&& r is None
                &&& final(self).index() == old(self).index()
            },
            old(self).index() <= cuboid_volume(old(self).spec_start(), old(self).spec_end()),
    {
        let ghost s = self.spec_start();
        let ghost e = self.spec_end();
        let ghost e0 = ext0(s, e);
        let ghost e1 = ext1(s, e);
        let ghost e2 = ext2(s, e);
        match self.current {
            None => {
                proof {
                    assert(cuboid_volume(s, e) >= 1) by (nonlinear_arith)
                        requires
                            cuboid_volume(s, e) == e0 * e1 * e2,
                            e0 >= 1,
                            e1 >= 1,
                            e2 >= 1,
                    ;
                }
                None
            },
            Some(c) => {
                let ghost cp = (c.0 as int, c.1 as int, c.2 as int);
                proof {
                    lemma_rank_coord(s, e, cp);
                }
                if c.0 < self.end.0 {
                    self.current = Some((c.0 + 1, c.1, c.2));
                } else if c.1 < self.end.1 {
                    self.current = Some((self.start.0, c.1 + 1, c.2));
                    proof {
                        assert(rank3(s, e, (s.0, cp.1 + 1, cp.2)) == rank3(s, e, cp) + 1)
                            by (nonlinear_arith)
                            requires
                                cp.0 == e.0,
                                e0 == e.0 - s.0 + 1,
                                rank3(s, e, (s.0, cp.1 + 1, cp.2)) == 0 + e0 * ((cp.1 + 1 - s.1)
                                    + (e.1 - s.1 + 1) * (cp.2 - s.2)),
                                rank3(s, e, cp) == (cp.0 - s.0) + e0 * ((cp.1 - s.1) + (e.1 - s.1
                                    + 1) * (cp.2 - s.2)),
                        ;
                    }
                } else if c.2 < self.end.2 {
                    self.current = Some((self.start.0, self.start.1, c.2 + 1));
                    proof {
                        assert(rank3(s, e, (s.0, s.1, cp.2 + 1)) == rank3(s, e, cp) + 1)
                            by (nonlinear_arith)
                            requires
                                cp.0 == e.0,
                                cp.1 == e.1,
                                e0 == e.0 - s.0 + 1,
                                e1 == e.1 - s.1 + 1,
                                rank3(s, e, (s.0, s.1, cp.2 + 1)) == 0 + e0 * (0 + e1 * (cp.2 + 1
                                    - s.2)),
                                rank3(s, e, cp) == (cp.0 - s.0) + e0 * ((cp.1 - s.1) + e1 * (cp.2
                                    - s.2)),
                        ;
                    }
                } else {
                    self.current = None;
                    proof {
                        assert(rank3(s, e, cp) + 1 == cuboid_volume(s, e)) by (nonlinear_arith)
                            requires
                                cp.0 == e.0,
                                cp.1 == e.1,
                                cp.2 == e.2,
                                e0 == e.0 - s.0 + 1,
                                e1 == e.1 - s.1 + 1,
                                e2 == e.2 - s.2 + 1,
                                rank3(s, e, cp) == (cp.0 - s.0) + e0 * ((cp.1 - s.1) + e1 * (cp.2
                                    - s.2)),
                                cuboid_volume(s, e) == e0 * e1 * e2,
                        ;
                    }
                }
                Some(c)
            },
        }
    }
}

} // verus!
