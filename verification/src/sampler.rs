//! Chunked sampling: the disjoint, complete tiling of the image that gives
//! each parallel task exclusive ownership of its pixels, and the pass
//! driver that traces a batch of photons and blends the hits.

use vstd::prelude::*;
use vstd::arithmetic::div_mod::{
    lemma_fundamental_div_mod, lemma_fundamental_div_mod_converse, lemma_div_pos_is_pos,
};
use crate::photon::Photon;
use crate::screen::{blend_seq_spec, count_blended, rays_ok, Screen, MAX_DIM};
use crate::world::{march_result, photon_ok, Intersection, World};

verus! {

/// A square tile of the accumulator grid, owning the pixel indices
/// `[x0, x0 + size) x [y0, y0 + size)`.
#[derive(Clone, Copy, Debug, PartialEq, Eq, Structural)]
pub struct Chunk {
    pub x0: usize,
    pub y0: usize,
    pub size: usize,
}

impl Chunk {
    /// Whether this tile owns pixel `(x, y)`.
    pub open spec fn contains(self, x: int, y: int) -> bool {
        self.x0 <= x < self.x0 + self.size && self.y0 <= y < self.y0 + self.size
    }
}

/// The `k`-th tile of a grid with `cols` tile columns and tile size `t`,
/// row-major.
pub open spec fn chunk_at(k: int, cols: int, t: int) -> Chunk {
    Chunk { x0: ((k % cols) * t) as usize, y0: ((k / cols) * t) as usize, size: t as usize }
}

/// Partition an image into square tiles of side `t`, row-major: tile `k`
/// sits at column `k % (width/t)` and row `k / (width/t)`.
pub fn tiles(width: usize, height: usize, t: usize) -> (out: Vec<Chunk>)
    requires
        1 <= t <= width <= MAX_DIM,
        t <= height <= MAX_DIM,
        width % t == 0,
        height % t == 0,
    ensures
        out@.len() == ((width as int) / (t as int)) * ((height as int) / (t as int)),
        forall|k: int|
            0 <= k < out@.len() ==> out@[k] == chunk_at(k, (width as int) / (t as int), t as int),
{
    let cols: usize = width / t;
    let rows: usize = height / t;
    proof {
        lemma_fundamental_div_mod(width as int, t as int);
        lemma_fundamental_div_mod(height as int, t as int);
        assert((cols as int) * (rows as int) <= 268_435_456) by (nonlinear_arith)
            requires
                cols <= 16_384,
                rows <= 16_384,
        ;
    }
    let mut out: Vec<Chunk> = Vec::new();
    let mut cy: usize = 0;
    while cy < rows
        invariant
            cy <= rows,
            cols == width / t,
            rows == height / t,
            1 <= t <= width <= MAX_DIM,
            t <= height <= MAX_DIM,
            width % t == 0,
            height % t == 0,
            cols <= MAX_DIM,
            rows <= MAX_DIM,
            (cols as int) * (rows as int) <= 268_435_456,
            out@.len() == (cy as int) * (cols as int),
            forall|k: int| 0 <= k < out@.len() ==> out@[k] == chunk_at(k, cols as int, t as int),
        decreases rows - cy,
    {
        let mut cx: usize = 0;
        proof {
            assert((cy as int) * (cols as int) + (cols as int) <= (rows as int) * (cols as int))
                by (nonlinear_arith)
                requires
                    cy < rows,
                    0 <= cols,
            ;
        }
        while cx < cols
            invariant
                cx <= cols,
                cy < rows,
                cols == width / t,
                rows == height / t,
                1 <= t <= width <= MAX_DIM,
                t <= height <= MAX_DIM,
                width % t == 0,
                height % t == 0,
                cols <= MAX_DIM,
                rows <= MAX_DIM,
                (cols as int) * (rows as int) <= 268_435_456,
                (cy as int) * (cols as int) + (cols as int) <= (rows as int) * (cols as int),
                out@.len() == (cy as int) * (cols as int) + (cx as int),
                forall|k: int|
                    0 <= k < out@.len() ==> out@[k] == chunk_at(k, cols as int, t as int),
            decreases cols - cx,
        {
            proof {
                let k = (cy as int) * (cols as int) + (cx as int);
                lemma_fundamental_div_mod(width as int, t as int);
                lemma_fundamental_div_mod(height as int, t as int);
                lemma_fundamental_div_mod_converse(k, cols as int, cy as int, cx as int);
                assert((cx as int) * (t as int) + (t as int) <= (cols as int) * (t as int))
                    by (nonlinear_arith)
                    requires
                        cx < cols,
                        0 <= t,
                ;
                assert((cy as int) * (t as int) + (t as int) <= (rows as int) * (t as int))
                    by (nonlinear_arith)
                    requires
                        cy < rows,
                        0 <= t,
                ;
                assert((cols as int) * (t as int) == width && (rows as int) * (t as int)
                    == height) by (nonlinear_arith)
                    requires
                        width == (t as int) * ((width as int) / (t as int)) + (width as int) % (
                        t as int),
                        height == (t as int) * ((height as int) / (t as int)) + (height as int)
                            % (t as int),
                        (width as int) % (t as int) == 0,
                        (height as int) % (t as int) == 0,
                        cols == (width as int) / (t as int),
                        rows == (height as int) / (t as int),
                ;
            }
            out.push(Chunk { x0: cx * t, y0: cy * t, size: t });
            cx = cx + 1;
        }
        cy = cy + 1;
        proof {
            assert((cy as int) * (cols as int) == (cy as int - 1) * (cols as int) + (
            cols as int)) by (nonlinear_arith);
        }
    }
    proof {
        assert((rows as int) * (cols as int) == (cols as int) * (rows as int)) by (
        nonlinear_arith);
    }
    out
}

/// Tiling completeness: when the tile size divides both image sides, every
/// pixel `(x, y)` of the grid belongs to exactly one tile — the one at
/// index `(y/t) * (width/t) + x/t` — and to no other.
pub proof fn lemma_tiling_partition(width: int, height: int, t: int, x: int, y: int)
    requires
        1 <= t <= width <= 16_384,
        t <= height <= 16_384,
        width % t == 0,
        height % t == 0,
        0 <= x < width,
        0 <= y < height,
    ensures
        0 <= (y / t) * (width / t) + x / t < (width / t) * (height / t),
        chunk_at((y / t) * (width / t) + x / t, width / t, t).contains(x, y),
        forall|j: int|
            0 <= j < (width / t) * (height / t) && j != (y / t) * (width / t) + x / t
                ==> !(#[trigger] chunk_at(j, width / t, t)).contains(x, y),
{
    let cols = width / t;
    let rows = height / t;
    let xc = x / t;
    let yc = y / t;
    lemma_fundamental_div_mod(width, t);
    lemma_fundamental_div_mod(height, t);
    lemma_fundamental_div_mod(x, t);
    lemma_fundamental_div_mod(y, t);
    lemma_div_pos_is_pos(x, t);
    lemma_div_pos_is_pos(y, t);
    assert(width == t * cols && height == t * rows);
    assert(xc < cols) by (nonlinear_arith)
        requires
            x < t * cols,
            x == t * xc + x % t,
            0 <= x % t < t,
            0 < t,
            0 <= xc,
    ;
    assert(yc < rows) by (nonlinear_arith)
        requires
            y < t * rows,
            y == t * yc + y % t,
            0 <= y % t < t,
            0 < t,
            0 <= yc,
    ;
    let k = yc * cols + xc;
    lemma_fundamental_div_mod_converse(k, cols, yc, xc);
    assert(0 <= k < cols * rows) by (nonlinear_arith)
        requires
            0 <= xc < cols,
            0 <= yc < rows,
            k == yc * cols + xc,
    ;
    assert(cols * rows == (width / t) * (height / t));
    assert(chunk_at(k, cols, t).contains(x, y)) by {
        assert(xc * t <= x < xc * t + t) by (nonlinear_arith)
            requires
                x == t * xc + x % t,
                0 <= x % t < t,
        ;
        assert(yc * t <= y < yc * t + t) by (nonlinear_arith)
            requires
                y == t * yc + y % t,
                0 <= y % t < t,
        ;
        assert(0 <= xc * t && xc * t + t <= width) by (nonlinear_arith)
            requires
                0 <= xc < cols,
                0 < t,
                width == t * cols,
        ;
        assert(0 <= yc * t && yc * t + t <= height) by (nonlinear_arith)
            requires
                0 <= yc < rows,
                0 < t,
                height == t * rows,
        ;
        assert(chunk_at(k, cols, t).x0 as int == xc * t);
        assert(chunk_at(k, cols, t).y0 as int == yc * t);
        assert(chunk_at(k, cols, t).size as int == t);
    };
    assert forall|j: int|
        0 <= j < (width / t) * (height / t) && j != k implies !(#[trigger] chunk_at(
        j,
        width / t,
        t,
    )).contains(x, y) by {
        if chunk_at(j, cols, t).contains(x, y) {
            let jx = j % cols;
            let jy = j / cols;
            lemma_fundamental_div_mod(j, cols);
            vstd::arithmetic::div_mod::lemma_mod_division_less_than_divisor(j, cols);
            lemma_div_pos_is_pos(j, cols);
            assert(jy < rows) by (nonlinear_arith)
                requires
                    j < cols * rows,
                    j == cols * jy + jx,
                    0 <= jx < cols,
                    0 <= jy,
                    0 < cols,
            ;
            assert(0 <= jx * t && jx * t + t <= width) by (nonlinear_arith)
                requires
                    0 <= jx,
                    jx < cols,
                    0 < t,
                    width == t * cols,
            ;
            assert(0 <= jy * t && jy * t + t <= height) by (nonlinear_arith)
                requires
                    0 <= jy,
                    jy < rows,
                    0 < t,
                    height == t * rows,
            ;
            assert(chunk_at(j, cols, t).x0 as int == jx * t);
            assert(chunk_at(j, cols, t).y0 as int == jy * t);
            assert(chunk_at(j, cols, t).size as int == t);
            assert(jx * t <= x < jx * t + t && jy * t <= y < jy * t + t);
            assert(x == jx * t + (x - jx * t) && 0 <= x - jx * t < t) by (nonlinear_arith)
                requires
                    jx * t <= x < jx * t + t,
            ;
            lemma_fundamental_div_mod_converse(x, t, jx, x - jx * t);
            assert(y == jy * t + (y - jy * t) && 0 <= y - jy * t < t) by (nonlinear_arith)
                requires
                    jy * t <= y < jy * t + t,
            ;
            lemma_fundamental_div_mod_converse(y, t, jy, y - jy * t);
            assert(jx == xc && jy == yc);
            assert(j == cols * jy + jx);
            assert(j == k) by (nonlinear_arith)
                requires
                    j == cols * yc + xc,
                    k == yc * cols + xc,
            ;
        }
    }
}

/// A batch of admissible photons.
pub open spec fn photons_ok(ps: Seq<Photon>) -> bool {
    forall|i: int| 0 <= i < ps.len() ==> photon_ok(#[trigger] ps[i])
}

/// Trace a batch of photons, one independent raymarch each; the result at
/// index `i` is exactly the trace of photon `i`.
pub fn trace_batch(w: &World, photons: &Vec<Photon>) -> (out: Vec<Intersection>)
    requires
        w.wf(),
        photons_ok(photons@),
    ensures
        out@.len() == photons@.len(),
        forall|i: int| 0 <= i < out@.len() ==> out@[i] == march_result(*w, photons@[i]),
        rays_ok(out@),
{
    let mut out: Vec<Intersection> = Vec::new();
    let mut i: usize = 0;
    while i < photons.len()
        invariant
            w.wf(),
            photons_ok(photons@),
            i <= photons@.len(),
            out@.len() == i,
            forall|j: int| 0 <= j < out@.len() ==> out@[j] == march_result(*w, photons@[j]),
            rays_ok(out@),
        decreases photons@.len() - i,
    {
        let p: Photon = photons[i];
        let ins = w.raymarch(p);
        out.push(ins);
        i = i + 1;
    }
    out
}

/// One refinement pass: trace every photon of the batch and blend the hits
/// into the accumulator, in production order. Returns how many hits landed
/// on the grid.
pub fn run_pass(w: &World, screen: &mut Screen, photons: &Vec<Photon>) -> (hits: usize)
    requires
        w.wf(),
        old(screen).wf(),
        photons_ok(photons@),
        old(screen).discarded + photons@.len() <= u64::MAX,
    ensures
        final(screen).wf(),
        final(screen).width == old(screen).width,
        final(screen).height == old(screen).height,
        (final(screen).pix@, final(screen).discarded as int) == blend_seq_spec(
            old(screen).pix@,
            old(screen).width as int,
            old(screen).height as int,
            old(screen).discarded as int,
            photons@.map_values(|p: Photon| march_result(*w, p)),
        ),
        hits == count_blended(
            old(screen).width as int,
            old(screen).height as int,
            photons@.map_values(|p: Photon| march_result(*w, p)),
        ),
{
    let traced = trace_batch(w, photons);
    proof {
        assert(traced@ =~= photons@.map_values(|p: Photon| march_result(*w, p)));
    }
    screen.blend_rays(&traced)
}

} // verus!
