//! Floor-based conversion between world coordinates and chunk/local
//! coordinates.
//!
//! A world axis is partitioned into chunks of a fixed positive extent
//! `size`. World coordinate `w` lies in chunk `floor(w / size)` at local
//! offset `w - size * floor(w / size)`, which is always in `[0, size)`,
//! including for negative `w`. Truncating division would misplace negative
//! coordinates, so both executable functions below compute the floor-based
//! values exactly.

use vstd::arithmetic::div_mod::{
    lemma_fundamental_div_mod, lemma_fundamental_div_mod_converse, lemma_mod_bound,
};
use vstd::prelude::*;

verus! {

/// Chunk index containing world coordinate `w`, for chunks of extent `size`.
/// Spec-level `/` is Euclidean division, which for a positive divisor is
/// exactly floor division.
pub open spec fn chunk_coord(w: int, size: int) -> int {
    w / size
}

/// Offset of world coordinate `w` inside its chunk.
pub open spec fn local_coord(w: int, size: int) -> int {
    w % size
}

/// Law: the floor-based mapping is a bijection between a world coordinate
/// and its (chunk, local) pair: `chunk_coord(w) * size + local_coord(w) == w`
/// and `0 <= local_coord(w) < size`, for every integer `w`, negative ones
/// included.
pub proof fn lemma_coord_roundtrip(w: int, size: int)
    requires
        size > 0,
    ensures
        chunk_coord(w, size) * size + local_coord(w, size) == w,
        0 <= local_coord(w, size) < size,
{
    lemma_fundamental_div_mod(w, size);
    lemma_mod_bound(w, size);
    assert(size * (w / size) == (w / size) * size) by (nonlinear_arith);
}

/// Floor division of a world coordinate by a positive chunk extent.
pub fn floor_div(w: i32, size: i32) -> (q: i32)
    requires
        1 <= size,
    ensures
        q == chunk_coord(w as int, size as int),
{
    if w >= 0 {
        let q64: u64 = (w as u64) / (size as u64);
        proof {
            lemma_fundamental_div_mod(w as int, size as int);
            lemma_mod_bound(w as int, size as int);
        }
        q64 as i32
    } else {
        let a: u64 = (-(w as i64)) as u64;
        let s: u64 = size as u64;
        let qq: u64 = (a + (s - 1)) / s;
        proof {
            lemma_floor_div_negative(w as int, size as int);
        }
        (-(qq as i64)) as i32
    }
}

/// For negative `w` and positive `size`, the floor quotient is the negated
/// rounded-up quotient of the magnitudes: `w / size == -((-w + size - 1) / size)`.
proof fn lemma_floor_div_negative(w: int, size: int)
    requires
        w < 0,
        size > 0,
    ensures
        w / size == -(((-w) + size - 1) / size),
        0 <= ((-w) + size - 1) / size <= -w,
{
    let a = -w;
    lemma_fundamental_div_mod(a, size);
    lemma_mod_bound(a, size);
    let d = a / size;
    let r = a % size;
    assert(a == size * d + r);
    if r == 0 {
        assert(a + size - 1 == d * size + (size - 1)) by (nonlinear_arith)
            requires
                a == size * d + r,
                r == 0,
        ;
        lemma_fundamental_div_mod_converse(a + size - 1, size, d, size - 1);
        assert(w == (-d) * size + 0) by (nonlinear_arith)
            requires
                w == -a,
                a == size * d + r,
                r == 0,
        ;
        lemma_fundamental_div_mod_converse(w, size, -d, 0);
        assert(d >= 0) by (nonlinear_arith)
            requires
                a == size * d + r,
                a > 0,
                size > 0,
                0 <= r < size,
        ;
        assert(d <= a) by (nonlinear_arith)
            requires
                a == size * d + r,
                size > 0,
                0 <= r,
                d >= 0,
        ;
    } else {
        assert(a + size - 1 == (d + 1) * size + (r - 1)) by (nonlinear_arith)
            requires
                a == size * d + r,
        ;
        lemma_fundamental_div_mod_converse(a + size - 1, size, d + 1, r - 1);
        assert(w == (-(d + 1)) * size + (size - r)) by (nonlinear_arith)
            requires
                w == -a,
                a == size * d + r,
        ;
        lemma_fundamental_div_mod_converse(w, size, -(d + 1), size - r);
        assert(d >= 0) by (nonlinear_arith)
            requires
                a == size * d + r,
                a > 0,
                size > 0,
                0 <= r < size,
        ;
        assert(d + 1 <= a) by (nonlinear_arith)
            requires
                a == size * d + r,
                size > 0,
                0 < r < size,
                d >= 0,
        ;
    }
}

/// Floor-based remainder of a world coordinate for a positive chunk extent:
/// the local coordinate inside the containing chunk, always in `[0, size)`.
pub fn floor_mod(w: i32, size: i32) -> (r: i32)
    requires
        1 <= size,
    ensures
        r == local_coord(w as int, size as int),
        0 <= r < size,
{
    let q = floor_div(w, size);
    proof {
        lemma_fundamental_div_mod(w as int, size as int);
        lemma_mod_bound(w as int, size as int);
        assert(size as int * (q as int) == (q as int) * (size as int)) by (nonlinear_arith);
    }
    let r64: i64 = (w as i64) - (q as i64) * (size as i64);
    r64 as i32
}

} // verus!
