//! The accumulation buffer: one growable cell of color samples per
//! pixel, reduced to a final image by componentwise averaging.
//!
//! Averaging a cell requires at least one sample; the renderer
//! establishes that by pushing every sample before finalizing.

use vstd::prelude::*;
use crate::fx::SCALE;
use crate::color::{Color, nonneg, bounded};

verus! {

/// Bound on the channels of an accumulated sample.
pub const SAMPLE_MAX: i64 = 0x1000_0000_0000_0000;

pub struct Buffer {
    pub width: usize,
    pub height: usize,
    pub samples: Vec<Vec<Color>>,
}

/// The sum of the first `i` samples' red channels; `sum_g`, `sum_b`
/// alike.
pub open spec fn spec_sum_r(s: Seq<Color>, i: int) -> int
    decreases i,
{
    if i <= 0 {
        0
    } else {
        spec_sum_r(s, i - 1) + s[i - 1].r
    }
}

pub open spec fn spec_sum_g(s: Seq<Color>, i: int) -> int
    decreases i,
{
    if i <= 0 {
        0
    } else {
        spec_sum_g(s, i - 1) + s[i - 1].g
    }
}

pub open spec fn spec_sum_b(s: Seq<Color>, i: int) -> int
    decreases i,
{
    if i <= 0 {
        0
    } else {
        spec_sum_b(s, i - 1) + s[i - 1].b
    }
}

/// The componentwise average of a nonempty cell.
pub open spec fn spec_average(s: Seq<Color>) -> Color {
    Color {
        r: (spec_sum_r(s, s.len() as int) / s.len() as int) as i64,
        g: (spec_sum_g(s, s.len() as int) / s.len() as int) as i64,
        b: (spec_sum_b(s, s.len() as int) / s.len() as int) as i64,
    }
}

impl Buffer {
    /// The cell of pixel `(x, y)`, row-major.
    pub open spec fn cell(self, x: int, y: int) -> Seq<Color> {
        self.samples@[y * self.width + x]@
    }

    /// The grid shape is right and every stored sample is a nonnegative
    /// bounded color.
    pub open spec fn wf(self) -> bool {
        &&& self.samples@.len() == self.width * self.height
        &&& forall|i: int|
            0 <= i < self.samples@.len() ==> (forall|j: int|
                0 <= j < (#[trigger] self.samples@[i])@.len() ==> nonneg(
                    #[trigger] self.samples@[i]@[j]) && bounded(self.samples@[i]@[j],
                    SAMPLE_MAX as int))
    }

    /// An empty buffer of `width * height` cells.
    pub fn new(width: usize, height: usize) -> (b: Buffer)
        requires
            1 <= width,
            1 <= height,
            width * height <= 0x10000000,
        ensures
            b.width == width,
            b.height == height,
            b.wf(),
            forall|x: int, y: int|
                0 <= x < width && 0 <= y < height ==> (#[trigger] b.cell(x, y)).len() == 0,
            forall|i: int|
                0 <= i < width * height ==> (#[trigger] b.samples@[i])@.len() == 0,
    {
        let n = width * height;
        let mut samples: Vec<Vec<Color>> = Vec::new();
        let mut i: usize = 0;
        while i < n
            invariant
                0 <= i <= n,
                samples@.len() == i,
                forall|k: int| 0 <= k < i ==> (#[trigger] samples@[k])@.len() == 0,
            decreases n - i,
        {
            samples.push(Vec::new());
            i = i + 1;
        }
        let b = Buffer { width, height, samples };
        proof {
            assert forall|x: int, y: int|
                0 <= x < width && 0 <= y < height implies (#[trigger] b.cell(x, y)).len()
                == 0 by {
                lemma_cell_index(width as int, height as int, x, y);
            }
        }
        b
    }

    /// Appends one sample to the cell of pixel `(x, y)`.
    pub fn add_sample(&mut self, x: usize, y: usize, sample: Color)
        requires
            old(self).wf(),
            x < old(self).width,
            y < old(self).height,
            nonneg(sample),
            bounded(sample, SAMPLE_MAX as int),
        ensures
            final(self).wf(),
            final(self).width == old(self).width,
            final(self).height == old(self).height,
            final(self).cell(x as int, y as int) == old(self).cell(x as int, y as int).push(
                sample),
            forall|i: int|
                0 <= i < old(self).samples@.len() && i != y * old(self).width + x
                    ==> (#[trigger] final(self).samples@[i]) == old(self).samples@[i],
    {
        proof {
            lemma_cell_index(self.width as int, self.height as int, x as int, y as int);
        }
        // binding the length brings the machine bound on the flat index
        let n_cells = self.samples.len();
        let idx = y * self.width + x;
        let cell = &mut self.samples[idx];
        cell.push(sample);
    }

    /// The componentwise average of the samples of pixel `(x, y)`.
    pub fn average_samples(&self, x: usize, y: usize) -> (c: Color)
        requires
            self.wf(),
            x < self.width,
            y < self.height,
            self.cell(x as int, y as int).len() >= 1,
        ensures
            c == spec_average(self.cell(x as int, y as int)),
            nonneg(c),
            bounded(c, SAMPLE_MAX as int),
    {
        proof {
            lemma_cell_index(self.width as int, self.height as int, x as int, y as int);
        }
        let n_cells = self.samples.len();
        let idx = y * self.width + x;
        let cell = &self.samples[idx];
        let n = cell.len();
        let ghost s = cell@;
        let mut sum_r: i128 = 0;
        let mut sum_g: i128 = 0;
        let mut sum_b: i128 = 0;
        let mut i: usize = 0;
        while i < n
            invariant
                0 <= i <= n,
                n == s.len(),
                s == cell@,
                cell == &self.samples@[y * self.width + x],
                self.wf(),
                x < self.width,
                y < self.height,
                0 <= y * self.width + x < self.samples@.len(),
                sum_r as int == spec_sum_r(s, i as int),
                sum_g as int == spec_sum_g(s, i as int),
                sum_b as int == spec_sum_b(s, i as int),
                0 <= sum_r as int <= i * (SAMPLE_MAX as int),
                0 <= sum_g as int <= i * (SAMPLE_MAX as int),
                0 <= sum_b as int <= i * (SAMPLE_MAX as int),
            decreases n - i,
        {
            let smp = cell[i];
            proof {
                lemma_sum_step(i as int, SAMPLE_MAX as int);
            }
            sum_r = sum_r + smp.r as i128;
            sum_g = sum_g + smp.g as i128;
            sum_b = sum_b + smp.b as i128;
            i = i + 1;
        }
        proof {
            lemma_avg_bounds(sum_r as int, n as int, SAMPLE_MAX as int);
            lemma_avg_bounds(sum_g as int, n as int, SAMPLE_MAX as int);
            lemma_avg_bounds(sum_b as int, n as int, SAMPLE_MAX as int);
        }
        let r = (sum_r / (n as i128)) as i64;
        let g = (sum_g / (n as i128)) as i64;
        let b = (sum_b / (n as i128)) as i64;
        Color { r, g, b }
    }

    /// The finalized image: one averaged color per pixel, row-major,
    /// origin at the top left.
    pub fn finalize(&self) -> (img: Vec<Color>)
        requires
            self.wf(),
            self.width >= 1,
            self.height >= 1,
            self.width * self.height <= 0x10000000,
            forall|x: int, y: int|
                0 <= x < self.width && 0 <= y < self.height ==> (#[trigger] self.cell(x,
                    y)).len() >= 1,
        ensures
            img@.len() == self.width * self.height,
            forall|x: int, y: int|
                0 <= x < self.width && 0 <= y < self.height ==> img@[y * self.width + x]
                    == spec_average(#[trigger] self.cell(x, y)),
    {
        let mut img: Vec<Color> = Vec::new();
        let mut y: usize = 0;
        while y < self.height
            invariant
                0 <= y <= self.height,
                self.wf(),
                self.width >= 1,
                self.height >= 1,
                self.width * self.height <= 0x10000000,
                forall|xx: int, yy: int|
                    0 <= xx < self.width && 0 <= yy < self.height ==> (#[trigger] self.cell(xx,
                        yy)).len() >= 1,
                img@.len() == y * self.width,
                forall|xx: int, yy: int|
                    0 <= xx < self.width && 0 <= yy < y ==> img@[yy * self.width + xx]
                        == spec_average(#[trigger] self.cell(xx, yy)),
            decreases self.height - y,
        {
            let mut x: usize = 0;
            while x < self.width
                invariant
                    0 <= x <= self.width,
                    0 <= y < self.height,
                    self.wf(),
                    self.width >= 1,
                    self.height >= 1,
                    self.width * self.height <= 0x10000000,
                    forall|xx: int, yy: int|
                        0 <= xx < self.width && 0 <= yy < self.height ==> (#[trigger] self.cell(
                            xx, yy)).len() >= 1,
                    img@.len() == y * self.width + x,
                    forall|xx: int, yy: int|
                        0 <= xx < self.width && 0 <= yy < y ==> img@[yy * self.width + xx]
                            == spec_average(#[trigger] self.cell(xx, yy)),
                    forall|xx: int|
                        0 <= xx < x ==> img@[y * self.width + xx] == spec_average(
                            #[trigger] self.cell(xx, y as int)),
                decreases self.width - x,
            {
                proof {
                    lemma_row_progress(self.width as int, self.height as int, x as int, y as int);
                }
                let c = self.average_samples(x, y);
                img.push(c);
                proof {
                    assert forall|xx: int, yy: int|
                        0 <= xx < self.width && 0 <= yy < y implies img@[yy * self.width + xx]
                        == spec_average(#[trigger] self.cell(xx, yy)) by {
                        assert(yy * self.width + xx < y * self.width) by (nonlinear_arith)
                            requires
                                0 <= xx < self.width,
                                0 <= yy <= y - 1,
                                self.width >= 1,
                        ;
                    };
                }
                x = x + 1;
            }
            proof {
                assert(img@.len() == y * self.width + self.width);
                assert(y * self.width + self.width == (y + 1) * self.width) by (nonlinear_arith);
                assert forall|xx: int, yy: int|
                    0 <= xx < self.width && 0 <= yy < y + 1 implies img@[yy * self.width + xx]
                    == spec_average(#[trigger] self.cell(xx, yy)) by {
                    if yy < y {
                    } else {
                        assert(yy == y);
                        assert(img@[y as int * self.width + xx] == spec_average(
                            self.cell(xx, y as int)));
                    }
                };
            }
            y = y + 1;
        }
        proof {
            assert(img@.len() == self.height * self.width);
            assert(self.height * self.width == self.width * self.height) by (nonlinear_arith);
        }
        img
    }
}

/// A pixel's flat index stays inside the grid.
proof fn lemma_cell_index(w: int, h: int, x: int, y: int)
    requires
        w >= 1,
        h >= 1,
        0 <= x < w,
        0 <= y < h,
    ensures
        0 <= y * w + x < w * h,
{
    assert(y * w + x < w * h) by (nonlinear_arith)
        requires
            0 <= x < w,
            0 <= y <= h - 1,
    ;
    assert(0 <= y * w) by (nonlinear_arith)
        requires
            0 <= y,
            0 <= w,
    ;
}

/// One more bounded sample keeps the running sum bounded.
proof fn lemma_sum_step(i: int, m: int)
    requires
        0 <= i,
        0 <= m,
    ensures
        i * m + m == (i + 1) * m,
{
    assert(i * m + m == (i + 1) * m) by (nonlinear_arith);
}

/// The average of `n >= 1` samples bounded by `m` is bounded by `m`.
proof fn lemma_avg_bounds(sum: int, n: int, m: int)
    requires
        n >= 1,
        m >= 0,
        0 <= sum <= n * m,
    ensures
        0 <= sum / n <= m,
{
    assert(0 <= sum / n <= m) by (nonlinear_arith)
        requires
            n >= 1,
            0 <= sum <= n * m,
    ;
}

/// Walking one pixel forward inside a row stays inside the grid.
proof fn lemma_row_progress(w: int, h: int, x: int, y: int)
    requires
        w >= 1,
        h >= 1,
        0 <= x < w,
        0 <= y < h,
    ensures
        y * w + x + 1 <= w * h,
        y * w + x == y * w + x,
{
    lemma_cell_index(w, h, x, y);
}

} // verus!
