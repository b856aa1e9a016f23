//! The per-pixel accumulator: a grid of running-average colors with sample
//! counts, fed by the intersections the raymarcher produces.

use vstd::prelude::*;
use vstd::pervasive::VecAdditionalExecFns;
use vstd::arithmetic::div_mod::{lemma_div_nonincreasing, lemma_div_pos_is_pos, lemma_div_of0};
use crate::num::{abs1, tdiv, tdiv64, lemma_tdiv_abs_le, ONE};
use crate::photon::spectral_rgb;
use crate::vec3::lemma_abs_mul_le;
use crate::world::Intersection;

verus! {

/// Largest image side length.
pub const MAX_DIM: usize = 16_384;

/// One pixel: the running mean of all samples blended so far, per channel
/// in micro-units, and the sample count, initialized at 1 as a baseline so
/// the first blend never divides by zero.
#[derive(Clone, Copy, Debug, PartialEq, Eq, Structural)]
pub struct Pixel {
    pub r: i64,
    pub g: i64,
    pub b: i64,
    pub count: i64,
}

/// A pixel's invariant: channels in `[0, ONE]`, count at least the
/// baseline 1.
pub open spec fn pixel_wf(p: Pixel) -> bool {
    &&& 0 <= p.r <= ONE
    &&& 0 <= p.g <= ONE
    &&& 0 <= p.b <= ONE
    &&& 1 <= p.count
}

/// The online running-mean update for one channel:
/// `mean + (sample - mean) / n`, truncated.
pub open spec fn mix_channel(c: int, x: int, n: int) -> int {
    c + tdiv(x - c, n)
}

/// Blend one color into a pixel: each channel moves toward the sample by
/// `1/count` of the gap, and the count advances (saturating only at the
/// `i64` limit).
pub open spec fn blend_color_once(px: Pixel, cr: int, cg: int, cb: int) -> Pixel {
    Pixel {
        r: mix_channel(px.r as int, cr, px.count as int) as i64,
        g: mix_channel(px.g as int, cg, px.count as int) as i64,
        b: mix_channel(px.b as int, cb, px.count as int) as i64,
        count: if px.count == i64::MAX {
            px.count
        } else {
            (px.count + 1) as i64
        },
    }
}

/// Blend one wavelength into a pixel through the spectral color map.
pub open spec fn blend_pixel(px: Pixel, wavelength: int) -> Pixel {
    let rgb = spectral_rgb(wavelength);
    blend_color_once(px, rgb.0, rgb.1, rgb.2)
}

/// The pixel index one normalized sensor coordinate maps to:
/// `round(u * (extent - 1) / ONE)`, by the add-half trick; a coordinate
/// outside `[0, ONE]` may fall outside `[0, extent)` and is then discarded.
pub open spec fn pixel_coord(u: int, extent: int) -> int {
    tdiv(u * (extent - 1) + 500_000, ONE as int)
}

/// What blending one intersection does to the grid and the discard
/// counter: misses are dropped, a hit is blended into the pixel its sensor
/// coordinate rounds to, and a hit rounding outside the grid only bumps
/// the diagnostic discard count.
pub open spec fn blend_one_spec(
    pix: Seq<Pixel>,
    w: int,
    h: int,
    dis: int,
    ins: Intersection,
) -> (Seq<Pixel>, int) {
    match ins {
        Intersection::Miss { .. } => (pix, dis),
        Intersection::Hit { u, v, photon } => {
            let x = pixel_coord(u as int, w);
            let y = pixel_coord(v as int, h);
            if 0 <= x < w && 0 <= y < h {
                let idx = y * w + x;
                (pix.update(idx, blend_pixel(pix[idx], photon.wavelength as int)), dis)
            } else {
                (pix, dis + 1)
            }
        },
    }
}

/// Blending a batch, in production order.
pub open spec fn blend_seq_spec(
    pix: Seq<Pixel>,
    w: int,
    h: int,
    dis: int,
    rays: Seq<Intersection>,
) -> (Seq<Pixel>, int)
    decreases rays.len(),
{
    if rays.len() == 0 {
        (pix, dis)
    } else {
        let head = blend_one_spec(pix, w, h, dis, rays[0]);
        blend_seq_spec(head.0, w, h, head.1, rays.drop_first())
    }
}

/// How many of a batch land on the grid.
pub open spec fn count_blended(w: int, h: int, rays: Seq<Intersection>) -> int
    decreases rays.len(),
{
    if rays.len() == 0 {
        0
    } else {
        let one = match rays[0] {
            Intersection::Miss { .. } => 0int,
            Intersection::Hit { u, v, .. } => {
                if 0 <= pixel_coord(u as int, w) < w && 0 <= pixel_coord(v as int, h) < h {
                    1int
                } else {
                    0int
                }
            },
        };
        one + count_blended(w, h, rays.drop_first())
    }
}

/// Hits carry sane coordinates (anything the camera, or an external trace
/// executor honoring its contract, can produce).
pub open spec fn rays_ok(rays: Seq<Intersection>) -> bool {
    forall|i: int|
        0 <= i < rays.len() ==> (#[trigger] rays[i] matches Intersection::Hit { u, v, .. }
            ==> abs1(u as int) <= 1_000_000_000 && abs1(v as int) <= 1_000_000_000)
}

/// The accumulator grid, row-major, one [`Pixel`] per grid cell, plus the
/// diagnostic count of discarded out-of-grid hits.
pub struct Screen {
    pub width: usize,
    pub height: usize,
    pub pix: Vec<Pixel>,
    pub discarded: u64,
}

impl Screen {
    pub open spec fn wf(self) -> bool {
        &&& 1 <= self.width <= MAX_DIM
        &&& 1 <= self.height <= MAX_DIM
        &&& self.pix@.len() == self.width * self.height
        &&& forall|i: int| 0 <= i < self.pix@.len() ==> pixel_wf(#[trigger] self.pix@[i])
    }

    /// A fresh accumulator: black everywhere, every count at the baseline
    /// 1, nothing discarded.
    pub fn new(width: usize, height: usize) -> (s: Screen)
        requires
            1 <= width <= MAX_DIM,
            1 <= height <= MAX_DIM,
        ensures
            s.wf(),
            s.width == width,
            s.height == height,
            s.discarded == 0,
            s.pix@.len() == width * height,
            forall|i: int|
                0 <= i < s.pix@.len() ==> s.pix@[i] == (Pixel { r: 0, g: 0, b: 0, count: 1 }),
    {
        proof {
            assert((width as int) * (height as int) <= 268_435_456) by (nonlinear_arith)
                requires
                    width <= 16_384,
                    height <= 16_384,
            ;
            assert(1 <= (width as int) * (height as int)) by (nonlinear_arith)
                requires
                    1 <= width,
                    1 <= height,
            ;
        }
        let n: usize = width * height;
        let mut pix: Vec<Pixel> = Vec::new();
        let mut i: usize = 0;
        while i < n
            invariant
                i <= n,
                pix@.len() == i,
                forall|j: int|
                    0 <= j < i ==> pix@[j] == (Pixel { r: 0, g: 0, b: 0, count: 1 }),
            decreases n - i,
        {
            pix.push(Pixel { r: 0, g: 0, b: 0, count: 1 });
            i = i + 1;
        }
        Screen { width, height, pix, discarded: 0 }
    }

    /// Blend a batch of intersections into the grid, in order: every miss
    /// is dropped, every hit lands on exactly the pixel [`blend_seq_spec`]
    /// names or bumps the discard counter, and the number of blended hits
    /// is returned.
    pub fn blend_rays(&mut self, rays: &Vec<Intersection>) -> (hits: usize)
        requires
            old(self).wf(),
            rays_ok(rays@),
            old(self).discarded + rays@.len() <= u64::MAX,
        ensures
            final(self).wf(),
            final(self).width == old(self).width,
            final(self).height == old(self).height,
            (final(self).pix@, final(self).discarded as int) == blend_seq_spec(
                old(self).pix@,
                old(self).width as int,
                old(self).height as int,
                old(self).discarded as int,
                rays@,
            ),
            hits == count_blended(old(self).width as int, old(self).height as int, rays@),
    {
        let w: usize = self.width;
        let h: usize = self.height;
        let mut hits: usize = 0;
        let mut n: usize = 0;
        while n < rays.len()
            invariant
                self.wf(),
                self.width == old(self).width,
                self.height == old(self).height,
                w == self.width,
                h == self.height,
                n <= rays@.len(),
                rays_ok(rays@),
                old(self).discarded + rays@.len() <= u64::MAX,
                self.discarded as int <= old(self).discarded + n,
                hits <= n,
                (self.pix@, self.discarded as int) == blend_seq_spec(
                    old(self).pix@,
                    w as int,
                    h as int,
                    old(self).discarded as int,
                    rays@.take(n as int),
                ),
                hits == count_blended(w as int, h as int, rays@.take(n as int)),
            decreases rays@.len() - n,
        {
            let ghost prefix = rays@.take(n as int);
            let ray: Intersection = rays[n];
            match ray {
                Intersection::Miss { .. } => {},
                Intersection::Hit { u, v, photon } => {
                    proof {
                        lemma_abs_mul_le(u as int, (w - 1) as int, 1_000_000_000, 16_383);
                        lemma_tdiv_abs_le(
                            u * ((w - 1) as i64) + 500_000,
                            ONE as int,
                            16_384_000_000,
                        );
                        lemma_abs_mul_le(v as int, (h - 1) as int, 1_000_000_000, 16_383);
                        lemma_tdiv_abs_le(
                            v * ((h - 1) as i64) + 500_000,
                            ONE as int,
                            16_384_000_000,
                        );
                    }
                    let x: i64 = tdiv64(u * ((w - 1) as i64) + 500_000, ONE);
                    let y: i64 = tdiv64(v * ((h - 1) as i64) + 500_000, ONE);
                    if 0 <= x && x < w as i64 && 0 <= y && y < h as i64 {
                        proof {
                            assert((y as int) * (w as int) + (x as int) < (h as int) * (
                            w as int)) by (nonlinear_arith)
                                requires
                                    0 <= (x as int) < (w as int),
                                    0 <= (y as int) < (h as int),
                            ;
                            assert(0 <= (y as int) * (w as int)) by (nonlinear_arith)
                                requires
                                    0 <= (y as int),
                                    0 <= (w as int),
                            ;
                            assert((h as int) * (w as int) == self.pix@.len()) by (
                            nonlinear_arith)
                                requires
                                    self.pix@.len() == (w as int) * (h as int),
                            ;
                            assert((y as int) * (w as int) + (x as int) <= 268_435_456) by (
                            nonlinear_arith)
                                requires
                                    0 <= (x as int) < (w as int) <= 16_384,
                                    0 <= (y as int) < (h as int) <= 16_384,
                            ;
                        }
                        let idx: usize = (y as usize) * w + (x as usize);
                        let px: Pixel = self.pix[idx];
                        let rgb = photon.wavelength_to_rgb();
                        proof {
                            lemma_mix_in_range(px.r as int, rgb.x as int, px.count as int);
                            lemma_mix_in_range(px.g as int, rgb.y as int, px.count as int);
                            lemma_mix_in_range(px.b as int, rgb.z as int, px.count as int);
                        }
                        let nr: i64 = px.r + tdiv64(rgb.x - px.r, px.count);
                        let ng: i64 = px.g + tdiv64(rgb.y - px.g, px.count);
                        let nb: i64 = px.b + tdiv64(rgb.z - px.b, px.count);
                        let nc: i64 = if px.count == i64::MAX {
                            px.count
                        } else {
                            px.count + 1
                        };
                        self.pix.set(idx, Pixel { r: nr, g: ng, b: nb, count: nc });
                        hits = hits + 1;
                    } else {
                        self.discarded = self.discarded + 1;
                    }
                },
            }
            proof {
                assert(ray == rays@[n as int]);
                assert(rays@.take(n as int + 1) =~= prefix.push(rays@[n as int]));
                lemma_blend_seq_snoc(
                    old(self).pix@,
                    w as int,
                    h as int,
                    old(self).discarded as int,
                    prefix,
                    rays@[n as int],
                );
                lemma_count_snoc(w as int, h as int, prefix, rays@[n as int]);
                assert(seq![rays@[n as int]].drop_first() =~= Seq::<Intersection>::empty());
                assert(seq![rays@[n as int]][0] == rays@[n as int]);
                assert(count_blended(w as int, h as int, Seq::<Intersection>::empty()) == 0);
            }
            n = n + 1;
        }
        proof {
            assert(rays@.take(rays@.len() as int) =~= rays@);
        }
        hits
    }
}

/// The running-mean step keeps a channel inside `[0, M]` whenever the
/// sample is, moving the mean between the old value and the sample.
pub proof fn lemma_mix_in_range(c: int, x: int, n: int)
    requires
        0 <= c <= ONE,
        0 <= x <= ONE,
        1 <= n,
    ensures
        0 <= mix_channel(c, x, n) <= ONE,
        abs1(tdiv(x - c, n)) <= ONE,
{
    if x >= c {
        lemma_div_pos_is_pos(x - c, n);
        lemma_div_nonincreasing(x - c, n);
    } else {
        lemma_div_pos_is_pos(c - x, n);
        lemma_div_nonincreasing(c - x, n);
    }
}

/// `k`-fold blend of one fixed color into a pixel.
pub open spec fn blend_color_k(px: Pixel, cr: int, cg: int, cb: int, k: nat) -> Pixel
    decreases k,
{
    if k == 0 {
        px
    } else {
        blend_color_once(blend_color_k(px, cr, cg, cb, (k - 1) as nat), cr, cg, cb)
    }
}

/// Blending `k >= 1` hits of one identical color into a fresh pixel
/// (baseline count 1, color black) yields exactly that color — the very
/// first blend reaches it, every further identical sample leaves the
/// running mean fixed — and a count of `k + 1`.
pub proof fn lemma_identical_blends_reach_color(cr: int, cg: int, cb: int, k: nat)
    requires
        0 <= cr <= ONE,
        0 <= cg <= ONE,
        0 <= cb <= ONE,
        1 <= k <= 1_000_000_000_000_000_000,
    ensures
        blend_color_k((Pixel { r: 0, g: 0, b: 0, count: 1 }), cr, cg, cb, k) == (Pixel {
            r: cr as i64,
            g: cg as i64,
            b: cb as i64,
            count: (k + 1) as i64,
        }),
    decreases k,
{
    vstd::arithmetic::div_mod::lemma_div_basics(cr);
    vstd::arithmetic::div_mod::lemma_div_basics(cg);
    vstd::arithmetic::div_mod::lemma_div_basics(cb);
    let fresh = Pixel { r: 0, g: 0, b: 0, count: 1 };
    if k == 1 {
        assert(blend_color_k(fresh, cr, cg, cb, 0) == fresh);
        assert(blend_color_k(fresh, cr, cg, cb, 1) == blend_color_once(fresh, cr, cg, cb));
        assert(mix_channel(0, cr, 1) == cr);
        assert(mix_channel(0, cg, 1) == cg);
        assert(mix_channel(0, cb, 1) == cb);
    } else {
        lemma_identical_blends_reach_color(cr, cg, cb, (k - 1) as nat);
        let prev = blend_color_k(fresh, cr, cg, cb, (k - 1) as nat);
        assert(blend_color_k(fresh, cr, cg, cb, k) == blend_color_once(prev, cr, cg, cb));
        lemma_div_of0(k as int);
        assert(mix_channel(cr, cr, k as int) == cr);
        assert(mix_channel(cg, cg, k as int) == cg);
        assert(mix_channel(cb, cb, k as int) == cb);
    }
}

/// Exact channel sum of a batch of samples.
pub open spec fn channel_sum(xs: Seq<int>) -> int
    decreases xs.len(),
{
    if xs.len() == 0 {
        0
    } else {
        xs[0] + channel_sum(xs.drop_first())
    }
}

proof fn lemma_sum_remove(xs: Seq<int>, i: int)
    requires
        0 <= i < xs.len(),
    ensures
        channel_sum(xs) == xs[i] + channel_sum(xs.remove(i)),
    decreases xs.len(),
{
    if i == 0 {
        assert(xs.remove(0) =~= xs.drop_first());
    } else {
        assert(xs.remove(i).drop_first() =~= xs.drop_first().remove(i - 1));
        lemma_sum_remove(xs.drop_first(), i - 1);
        assert(xs.remove(i)[0] == xs[0]);
        assert(xs.drop_first()[i - 1] == xs[i]);
    }
}

/// Order independence: two batches holding the same multiset of samples
/// have the same exact sum, hence the same exact mean for the pixel they
/// land on. The executable blend follows that mean with one truncated
/// division per step, so any serialization agrees up to that rounding.
pub proof fn lemma_sum_order_independent(xs: Seq<int>, ys: Seq<int>)
    requires
        xs.to_multiset() == ys.to_multiset(),
    ensures
        channel_sum(xs) == channel_sum(ys),
    decreases xs.len(),
{
    xs.to_multiset_ensures();
    ys.to_multiset_ensures();
    assert(xs.len() == xs.to_multiset().len());
    assert(ys.len() == ys.to_multiset().len());
    if xs.len() == 0 {
        assert(ys.len() == 0);
    } else {
        let x0 = xs[0];
        assert(xs.contains(x0));
        assert(ys.to_multiset().count(x0) > 0);
        assert(ys.contains(x0));
        let j = choose|j: int| 0 <= j < ys.len() && ys[j] == x0;
        lemma_sum_remove(xs, 0);
        lemma_sum_remove(ys, j);
        assert(xs.remove(0).to_multiset() =~= xs.to_multiset().remove(x0));
        assert(ys.remove(j).to_multiset() =~= ys.to_multiset().remove(x0));
        lemma_sum_order_independent(xs.remove(0), ys.remove(j));
    }
}

/// Appending one intersection to a batch blends it after the batch.
proof fn lemma_blend_seq_snoc(
    pix: Seq<Pixel>,
    w: int,
    h: int,
    dis: int,
    rays: Seq<Intersection>,
    ins: Intersection,
)
    ensures
        blend_seq_spec(pix, w, h, dis, rays.push(ins)) == blend_one_spec(
            blend_seq_spec(pix, w, h, dis, rays).0,
            w,
            h,
            blend_seq_spec(pix, w, h, dis, rays).1,
            ins,
        ),
    decreases rays.len(),
{
    if rays.len() == 0 {
        assert(rays.push(ins).drop_first() =~= Seq::<Intersection>::empty());
        assert(rays.push(ins)[0] == ins);
        let head = blend_one_spec(pix, w, h, dis, ins);
        assert(blend_seq_spec(head.0, w, h, head.1, rays.push(ins).drop_first()) == (
        head.0,
        head.1,
        ));
        assert(blend_seq_spec(pix, w, h, dis, rays) == (pix, dis));
        assert(head == (head.0, head.1));
    } else {
        assert(rays.push(ins)[0] == rays[0]);
        assert(rays.push(ins).drop_first() =~= rays.drop_first().push(ins));
        let head = blend_one_spec(pix, w, h, dis, rays[0]);
        lemma_blend_seq_snoc(head.0, w, h, head.1, rays.drop_first(), ins);
    }
}

proof fn lemma_count_snoc(w: int, h: int, rays: Seq<Intersection>, ins: Intersection)
    ensures
        count_blended(w, h, rays.push(ins)) == count_blended(w, h, rays) + count_blended(
            w,
            h,
            seq![ins],
        ),
    decreases rays.len(),
{
    if rays.len() == 0 {
        assert(rays.push(ins).drop_first() =~= Seq::<Intersection>::empty());
        assert(rays.push(ins)[0] == ins);
        assert(seq![ins].drop_first() =~= Seq::<Intersection>::empty());
    } else {
        assert(rays.push(ins)[0] == rays[0]);
        assert(rays.push(ins).drop_first() =~= rays.drop_first().push(ins));
        lemma_count_snoc(w, h, rays.drop_first(), ins);
    }
}

} // verus!
