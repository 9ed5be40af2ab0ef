//! Randomness for scatter effects. The world's systems draw through
//! the `RngSampler` trait; the one impl backed by the `rand` crate
//! keeps the trusted surface to two small wrappers, and every derived
//! sample is computed and bounded in verified code.

use vstd::prelude::*;

use rand::Rng;

use crate::geom::dir_with_len;
use crate::geom::lemma_mul_div_bound;
use crate::geom::Vec2;
use crate::geom::COORD_LIMIT;

verus! {

/// A recentred sample pair scaled up a thousandfold: the vector whose
/// direction `circle` rescales to one unit.
pub open spec fn scaled_sample(s: Vec2) -> Vec2 {
    Vec2 { x: (s.x * 1000) as i64, y: (s.y * 1000) as i64 }
}

/// A source of uniform samples in thousandths.
pub trait RngSampler {
    /// One sample in `[0, 1000]`, in thousandths of the unit interval.
    fn value(&mut self) -> (r: u32)
        ensures
            r <= 1000,
    ;

    /// One sample in `[-1000, 1000]`, in thousandths: the unit interval
    /// sample recentred on zero, an affine function of the raw sample.
    fn value_one(&mut self) -> (r: i64)
        ensures
            -1000 <= r <= 1000,
            exists|v: int| 0 <= v <= 1000 && r == ((#[trigger] (v * 2)) - 1000),
    {
        let v = self.value();
        let r: i64 = (v as i64 - 500) * 2;
        proof {
            assert(0 <= v as int <= 1000 && r == v as int * 2 - 1000);
        }
        r
    }

    /// One sample in `[min, max]`: the raw sample interpolated linearly
    /// across the range.
    fn value_range(&mut self, min: i64, max: i64) -> (r: i64)
        requires
            -COORD_LIMIT <= min <= max <= COORD_LIMIT,
        ensures
            min <= r <= max,
            exists|v: int|
                0 <= v <= 1000 && r == min + (#[trigger] (v * (max - min))) / 1000,
    {
        let v = self.value();
        let span: i64 = max - min;
        proof {
            lemma_mul_div_bound(v as int, span as int, 1000);
        }
        let off: i64 = ((v as u128 * span as u128) / 1000) as i64;
        let r = min + off;
        proof {
            assert(0 <= v as int <= 1000 && r == min + (v as int * (max - min)) / 1000);
            assert(exists|v2: int|
                0 <= v2 <= 1000 && r == min + (#[trigger] (v2 * (max - min))) / 1000);
        }
        r
    }

    /// A direction of length about one unit, drawn from two recentred
    /// samples rescaled by the exact integer geometry; each component
    /// stays within one unit. The samples are scaled up a thousandfold
    /// before rescaling, so the division error of short samples cannot
    /// stretch the direction. Two zero samples fall back to the
    /// positive x axis.
    fn circle(&mut self) -> (r: Vec2)
        ensures
            -1000 <= r.x <= 1000,
            -1000 <= r.y <= 1000,
            996_000 <= crate::geom::len2(r) <= 1_002_001,
            exists|s: Vec2|
                -1000 <= s.x <= 1000 && -1000 <= s.y <= 1000 && r.x == crate::geom::scaled_x(
                    #[trigger] scaled_sample(s),
                    1000,
                ) && r.y == crate::geom::scaled_y(scaled_sample(s), 1000),
    {
        let x = self.value_one();
        let y = self.value_one();
        let v = Vec2 { x: x * 1000, y: y * 1000 };
        let r = dir_with_len(v, 1000);
        proof {
            let sw = Vec2 { x, y };
            assert(scaled_sample(sw) == v);
            assert(-1000 <= sw.x <= 1000 && -1000 <= sw.y <= 1000 && r.x
                == crate::geom::scaled_x(scaled_sample(sw), 1000) && r.y
                == crate::geom::scaled_y(scaled_sample(sw), 1000));
            if v.x == 0 && v.y == 0 {
                assert(crate::geom::len2(v) == 0) by (nonlinear_arith)
                    requires
                        v.x == 0,
                        v.y == 0,
                ;
                assert(crate::geom::ilen(v) == 0);
                assert(r == (Vec2 { x: 1000, y: 0 }));
                assert(crate::geom::len2(r) == 1_000_000);
            } else {
                crate::geom::lemma_sqrt_of(crate::geom::len2(v) as nat);
                let n = crate::geom::ilen(v);
                assert(v.x * v.x + v.y * v.y >= 1_000_000) by (nonlinear_arith)
                    requires
                        v.x != 0 || v.y != 0,
                        v.x == x as int * 1000,
                        v.y == y as int * 1000,
                ;
                crate::geom::lemma_square_bound(v.x as int, 1_000_000);
                crate::geom::lemma_square_bound(v.y as int, 1_000_000);
                assert(1000 <= n <= 2_000_000) by (nonlinear_arith)
                    requires
                        0 <= n,
                        n * n <= crate::geom::len2(v),
                        crate::geom::len2(v) < (n + 1) * (n + 1),
                        1_000_000 <= crate::geom::len2(v) <= 2_000_000_000_000,
                ;
                crate::geom::lemma_dir_len_close(v, 1000, r);
                assert(996_000 <= crate::geom::len2(r));
                assert(crate::geom::len2(r) <= 1_002_001) by (nonlinear_arith)
                    requires
                        crate::geom::len2(r) * (n * n) <= 1_000_000 * ((n + 1) * (n + 1)),
                        1000 <= n,
                ;
            }
        }
        r
    }
}

#[verifier::external_type_specification]
#[verifier::external_body]
pub struct ExThreadRng(rand::rngs::ThreadRng);

/// Relies on `rand::thread_rng`: a handle to the thread-local generator.
#[verifier::external_body]
fn fresh_thread_rng() -> rand::rngs::ThreadRng {
    rand::thread_rng()
}

/// Relies on `rand::Rng::gen`: a random 32-bit value. Nothing can be
/// promised of a random sample, so nothing is.
#[verifier::external_body]
fn sample_u32(rng: &mut rand::rngs::ThreadRng) -> u32 {
    rng.gen()
}

/// The sampler backed by the thread-local generator of `rand`.
pub struct SimpleRng {
    rng: rand::rngs::ThreadRng,
}

impl SimpleRng {
    pub fn new() -> SimpleRng {
        SimpleRng { rng: fresh_thread_rng() }
    }
}

impl RngSampler for SimpleRng {
    fn value(&mut self) -> (r: u32) {
        sample_u32(&mut self.rng) % 1001
    }
}

} // verus!
