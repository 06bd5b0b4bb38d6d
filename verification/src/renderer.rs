//! The renderer: camera rays per pixel, recursive tracing, sample
//! accumulation.
//!
//! The primary model is recursive bouncing: a hit either scatters (the
//! bounced ray is traced with one less depth and attenuated by the
//! albedo) or emits, and the two contributions add; depth zero is black.
//! Because the generator is deterministic, a whole trace is a function
//! of the scene, the ray, the depth and the generator state, and the
//! contracts state exactly that function.  An alternate shadow-ray model
//! colors a hit by its normal and turns it black when any light is
//! occluded.

use vstd::prelude::*;
use crate::fx::{SCALE, ORIGIN_MAX, DIR_MAX, tdiv};
use crate::color::{Color, nonneg, bounded, spec_color_add, spec_color_new, spec_attenuate};
use crate::vec3::{Vec3, UnitVec3, in_box};
use crate::ray::{Ray, spec_eval};
use crate::shape::ShapeCollisionInformation;
use crate::material::{Material, spec_evaluate};
use crate::scene::{Scene, spec_closest_from, spec_closest_hit};
use crate::lights::spec_illuminate;
use crate::camera::{Camera, spec_cast_ray};
use crate::rng::{Rng64, spec_rng_next, spec_rand_unit};
use crate::buffer::{Buffer, spec_average};

verus! {

/// The self-intersection threshold handed to every intersection test.
pub const EPSILON: i64 = 1024;

/// The bounce depth of the primary tracing model.
pub const MAX_REFLECTION_DEPTH: u32 = 5;

/// No light at all.
pub open spec fn spec_black() -> Color {
    Color { r: 0, g: 0, b: 0 }
}

pub struct Renderer {
    pub scene: Scene,
    pub camera: Camera,
    pub width: usize,
    pub height: usize,
    pub iterations: usize,
}

/// The recursive-bounce trace: what color a ray gathers at the given
/// depth, and the generator state left behind.  Depth zero is black; a
/// miss is the background (black); a hit draws a scatter direction,
/// evaluates the material, traces the bounce (when the hit point stays
/// in the traceable box) attenuated by the albedo, and adds the
/// emission.
pub open spec fn spec_trace(s: Scene, r: Ray, depth: u32, st: u64) -> (Color, u64)
    decreases depth,
{
    if depth == 0 {
        (spec_black(), st)
    } else {
        match spec_closest_from(s.objects@, 0, r, EPSILON) {
            None => (spec_black(), st),
            Some((i, h)) => {
                let ru = spec_rand_unit(st);
                let point = spec_eval(r, h.time);
                let info = ShapeCollisionInformation {
                    distance: h.time,
                    normal: h.normal,
                    intersection_point: point,
                };
                let mci = spec_evaluate(s.objects@[i].material, r, info, ru.0);
                let refl = match mci.reflection_information {
                    None => (spec_black(), ru.1),
                    Some(ri) => if in_box(point, ORIGIN_MAX as int) {
                        let rec = spec_trace(
                            s,
                            Ray { pos: point, dir: ri.reflection },
                            (depth - 1) as u32,
                            ru.1,
                        );
                        (spec_attenuate(ri.albedo, rec.0), rec.1)
                    } else {
                        (spec_black(), ru.1)
                    },
                };
                let em = match mci.emission_information {
                    None => spec_black(),
                    Some(e) => e.color,
                };
                (spec_color_add(refl.0, em), refl.1)
            },
        }
    }
}

/// Whether light `j` is occluded at `point`: the shadow ray toward the
/// light hits something strictly closer than the light.
pub open spec fn spec_shadowed(s: Scene, point: Vec3, j: int) -> bool {
    let ill = spec_illuminate(s.lights@[j], point);
    match spec_closest_hit(s, ill.to_light, EPSILON) {
        None => false,
        Some(sh) => sh.time < ill.time,
    }
}

/// The shadow-ray direct-lighting trace: a miss is black; a hit is
/// colored by its normal, turned black when any light is occluded (the
/// occlusion test is skipped for hit points outside the traceable box).
pub open spec fn spec_shadow_trace(s: Scene, r: Ray) -> Color {
    match spec_closest_from(s.objects@, 0, r, EPSILON) {
        None => spec_black(),
        Some((i, h)) => {
            let point = spec_eval(r, h.time);
            let base = spec_color_new(h.normal.x, h.normal.y, h.normal.z);
            if in_box(point, ORIGIN_MAX as int) {
                if exists|j: int| 0 <= j < s.lights@.len() && spec_shadowed(s, point, j) {
                    spec_black()
                } else {
                    base
                }
            } else {
                base
            }
        },
    }
}

impl Renderer {
    pub open spec fn wf(self) -> bool {
        &&& self.scene.wf()
        &&& self.camera.wf()
        &&& 1 <= self.width <= 1048576
        &&& 1 <= self.height <= 1048576
        &&& self.width * self.height <= 0x10000000
        &&& 1 <= self.iterations
    }

    /// A renderer over an already-built scene and camera.  The sample
    /// count must be at least one: averaging zero samples is undefined,
    /// so a zero count is ruled out up front.
    pub fn new(
        scene: Scene,
        camera: Camera,
        width: usize,
        height: usize,
        iterations: usize,
    ) -> (r: Renderer)
        requires
            scene.wf(),
            camera.wf(),
            1 <= width <= 1048576,
            1 <= height <= 1048576,
            width * height <= 0x10000000,
            1 <= iterations,
        ensures
            r == (Renderer { scene, camera, width, height, iterations }),
            r.wf(),
    {
        Renderer { scene, camera, width, height, iterations }
    }

    /// Traces a ray through the scene with the recursive-bounce model.
    /// Depth zero is always black, whatever the scene; the result is the
    /// deterministic trace function of the generator state.
    pub fn cast_ray(&self, ray: &Ray, depth: u32, rng: &mut Rng64) -> (c: Color)
        requires
            self.scene.wf(),
            in_box(ray.pos, ORIGIN_MAX as int),
            in_box(ray.dir, DIR_MAX as int),
        ensures
            c == spec_trace(self.scene, *ray, depth, old(rng).state).0,
            final(rng).state == spec_trace(self.scene, *ray, depth, old(rng).state).1,
            depth == 0 ==> c == spec_black(),
            nonneg(c),
            bounded(c, (SCALE as int) * (depth as int + 1)),
        decreases depth,
    {
        if depth == 0 {
            return Color { r: 0, g: 0, b: 0 };
        }
        match self.scene.get_closest_hit_full(ray, EPSILON) {
            None => Color { r: 0, g: 0, b: 0 },
            Some((i, h)) => {
                let scatter = UnitVec3::random_unit_sphere(rng);
                let point = ray.eval(h.time);
                let info = ShapeCollisionInformation {
                    distance: h.time,
                    normal: h.normal,
                    intersection_point: point,
                };
                let material = self.scene.objects[i].material;
                let mci = material.evaluate(ray, &info, &scatter);
                let refl_color = match mci.reflection_information {
                    None => Color { r: 0, g: 0, b: 0 },
                    Some(ri) => {
                        if point.within(ORIGIN_MAX) {
                            let bounce = Ray { pos: point, dir: ri.reflection };
                            let rec = self.cast_ray(&bounce, depth - 1, rng);
                            proof {
                                lemma_material_colors(material, *ray, info, scatter.as_vec3());
                            }
                            ri.albedo.attenuate(&rec)
                        } else {
                            Color { r: 0, g: 0, b: 0 }
                        }
                    },
                };
                let em_color = match mci.emission_information {
                    None => Color { r: 0, g: 0, b: 0 },
                    Some(e) => e.color,
                };
                proof {
                    lemma_material_colors(material, *ray, info, scatter.as_vec3());
                    assert((SCALE as int) * (depth as int + 1) == (SCALE as int) * (depth as int)
                        + SCALE) by (nonlinear_arith);
                    assert((SCALE as int) * (depth - 1 as int + 1) <= (SCALE as int) * (
                    depth as int)) by (nonlinear_arith)
                        requires
                            depth >= 1,
                    ;
                }
                refl_color.add(&em_color)
            },
        }
    }

    /// Traces a ray with the shadow-ray direct-lighting model.
    pub fn trace_ray(&self, ray: &Ray) -> (c: Color)
        requires
            self.scene.wf(),
            in_box(ray.pos, ORIGIN_MAX as int),
            in_box(ray.dir, DIR_MAX as int),
        ensures
            c == spec_shadow_trace(self.scene, *ray),
            nonneg(c),
            bounded(c, SCALE as int),
    {
        match self.scene.get_closest_hit_full(ray, EPSILON) {
            None => Color { r: 0, g: 0, b: 0 },
            Some((_i, h)) => {
                let point = ray.eval(h.time);
                let base = Color::new(h.normal.x, h.normal.y, h.normal.z);
                if point.within(ORIGIN_MAX) {
                    let ills = self.scene.illuminations(point);
                    let n = ills.len();
                    let mut shadowed = false;
                    let mut j: usize = 0;
                    while j < n
                        invariant
                            0 <= j <= n,
                            n == self.scene.lights@.len(),
                            n == ills@.len(),
                            self.scene.wf(),
                            in_box(point, ORIGIN_MAX as int),
                            in_box(point, 70377334112256),
                            forall|k: int|
                                0 <= k < n ==> ills@[k] == spec_illuminate(
                                    #[trigger] self.scene.lights@[k], point),
                            forall|k: int|
                                0 <= k < n ==> in_box((#[trigger] ills@[k]).to_light.dir,
                                    SCALE as int) && ills@[k].to_light.pos == point && 0 <= ills@[
                                    k].time,
                            shadowed == exists|k: int|
                                0 <= k < j && spec_shadowed(self.scene, point, k),
                        decreases n - j,
                    {
                        let ill = ills[j];
                        let shadow_hit = self.scene.get_closest_hit(&ill.to_light, EPSILON);
                        let blocked = match shadow_hit {
                            None => false,
                            Some(sh) => sh.time < ill.time,
                        };
                        proof {
                            assert(blocked == spec_shadowed(self.scene, point, j as int));
                        }
                        shadowed = shadowed || blocked;
                        j = j + 1;
                    }
                    if shadowed {
                        Color { r: 0, g: 0, b: 0 }
                    } else {
                        base
                    }
                } else {
                    base
                }
            },
        }
    }
}

/// The normalized device coordinate of a pixel column: `(2x - w) / dim`
/// as a fixed-point value in `[-1, 1]`.
pub open spec fn spec_ndc_x(w: int, dim: int, x: int) -> int {
    tdiv((2 * x - w) * (SCALE as int), dim)
}

/// The normalized device coordinate of a pixel row, flipped so the first
/// row is the top of the image.
pub open spec fn spec_ndc_y(h: int, dim: int, y: int) -> int {
    tdiv((h - 2 * y) * (SCALE as int), dim)
}

/// One sample of one pixel: jitter the device coordinates by a random
/// sub-pixel offset, cast the camera ray, and trace it at full depth.
#[verifier::opaque]
pub open spec fn spec_sample_pixel(ren: Renderer, x: int, y: int, st: u64) -> (Color, u64) {
    let dim = if ren.width >= ren.height {
        ren.width as int
    } else {
        ren.height as int
    };
    let xn = spec_ndc_x(ren.width as int, dim, x);
    let yn = spec_ndc_y(ren.height as int, dim, y);
    let k = (SCALE as int) / dim;
    let s1 = spec_rng_next(st);
    let dx = s1 as int % k;
    let s2 = spec_rng_next(s1);
    let dy = s2 as int % k;
    let ray = spec_cast_ray(ren.camera, (xn + dx) as i64, (yn + dy) as i64);
    spec_trace(ren.scene, ray, MAX_REFLECTION_DEPTH, s2)
}

/// The generator state a pixel's task starts from: derived from the
/// render seed and the pixel's flat index, so tasks are independent and
/// the whole render is reproducible per seed.
pub open spec fn spec_pixel_seed(seed: u64, idx: int) -> u64 {
    seed ^ (idx as u64)
}

/// The first `k` samples of a pixel and the state after them.
pub open spec fn spec_samples(ren: Renderer, x: int, y: int, st: u64, k: int) -> (Seq<Color>, u64)
    decreases k,
{
    if k <= 0 {
        (Seq::<Color>::empty(), st)
    } else {
        let p = spec_samples(ren, x, y, st, k - 1);
        let smp = spec_sample_pixel(ren, x, y, p.1);
        (p.0.push(smp.0), smp.1)
    }
}

/// The finalized color of one pixel: the average of its samples.
pub open spec fn spec_render_pixel(ren: Renderer, x: int, y: int, seed: u64) -> Color {
    spec_average(
        spec_samples(
            ren,
            x,
            y,
            spec_pixel_seed(seed, y * ren.width + x),
            ren.iterations as int,
        ).0,
    )
}

impl Renderer {
    /// One sample of pixel `(x, y)`: jittered camera ray, traced at full
    /// depth.
    pub fn sample_pixel(&self, x: usize, y: usize, rng: &mut Rng64) -> (c: Color)
        requires
            self.wf(),
            x < self.width,
            y < self.height,
        ensures
            c == spec_sample_pixel(*self, x as int, y as int, old(rng).state).0,
            final(rng).state == spec_sample_pixel(*self, x as int, y as int, old(rng).state).1,
            nonneg(c),
            bounded(c, (SCALE as int) * (MAX_REFLECTION_DEPTH as int + 1)),
    {
        proof {
            reveal(spec_sample_pixel);
        }
        let dim: i64 = if self.width >= self.height {
            self.width as i64
        } else {
            self.height as i64
        };
        let w = self.width as i64;
        let h = self.height as i64;
        let xi = x as i64;
        let yi = y as i64;
        proof {
            crate::vec3::lemma_muldiv_bound(2 * (xi as int) - w, dim as int, SCALE as int,
                SCALE as int, dim as int, SCALE as int);
            crate::vec3::lemma_muldiv_bound(h - 2 * (yi as int), dim as int, SCALE as int,
                SCALE as int, dim as int, SCALE as int);
            assert((dim as int) * (SCALE as int) == (SCALE as int) * (dim as int))
                by (nonlinear_arith);
            assert((SCALE as int) / (dim as int) >= 1 && (SCALE as int) / (dim as int)
                <= SCALE as int) by (nonlinear_arith)
                requires
                    1 <= dim as int <= SCALE as int,
                    SCALE == 1048576,
            ;
        }
        let xn = (2 * xi - w) * SCALE / dim;
        let yn = (h - 2 * yi) * SCALE / dim;
        let k = SCALE / dim;
        let dx = rng.next_below(k as u64) as i64;
        let dy = rng.next_below(k as u64) as i64;
        let ray = self.camera.cast_ray(xn + dx, yn + dy);
        self.cast_ray(&ray, MAX_REFLECTION_DEPTH, rng)
    }

    /// Collects all samples of one pixel into its buffer cell.
    fn render_pixel_into(&self, buffer: &mut Buffer, x: usize, y: usize, idx: usize, seed: u64)
        requires
            self.wf(),
            old(buffer).wf(),
            old(buffer).width == self.width,
            old(buffer).height == self.height,
            x < self.width,
            y < self.height,
            (y as int) * (self.width as int) + x as int == idx as int,
            (idx as int) < old(buffer).samples@.len(),
            old(buffer).samples@[idx as int]@.len() == 0,
        ensures
            final(buffer).wf(),
            final(buffer).width == old(buffer).width,
            final(buffer).height == old(buffer).height,
            final(buffer).samples@.len() == old(buffer).samples@.len(),
            final(buffer).samples@[idx as int]@ == spec_samples(*self, x as int, y as int,
                spec_pixel_seed(seed, idx as int), self.iterations as int).0,
            forall|i2: int|
                0 <= i2 < old(buffer).samples@.len() && i2 != idx as int
                    ==> (#[trigger] final(buffer).samples@[i2]) == old(buffer).samples@[i2],
    {
        let iters = self.iterations;
        let mut rng = Rng64::new(seed ^ (idx as u64));
        let mut k: usize = 0;
        while k < iters
            invariant
                0 <= k <= iters,
                iters == self.iterations,
                self.wf(),
                buffer.wf(),
                buffer.width == self.width,
                buffer.height == self.height,
                buffer.samples@.len() == old(buffer).samples@.len(),
                x < self.width,
                y < self.height,
                (y as int) * (self.width as int) + x as int == idx as int,
                0 <= (idx as int) < buffer.samples@.len(),
                rng.state == spec_samples(*self, x as int, y as int,
                    spec_pixel_seed(seed, idx as int), k as int).1,
                buffer.samples@[idx as int]@ == spec_samples(*self, x as int, y as int,
                    spec_pixel_seed(seed, idx as int), k as int).0,
                forall|i2: int|
                    0 <= i2 < old(buffer).samples@.len() && i2 != idx as int
                        ==> (#[trigger] buffer.samples@[i2]) == old(buffer).samples@[i2],
            decreases iters - k,
        {
            let sample = self.sample_pixel(x, y, &mut rng);
            buffer.add_sample(x, y, sample);
            k = k + 1;
        }
    }

    /// Renders the full image: for every pixel, `iterations` jittered
    /// samples into the accumulation buffer, then the averaged image,
    /// row-major with the origin at the top left.  The result is a
    /// deterministic function of the scene, camera and seed.
    #[verifier::rlimit(100)]
    #[verifier::spinoff_prover]
    pub fn render(&self, seed: u64) -> (img: Vec<Color>)
        requires
            self.wf(),
        ensures
            img@.len() == self.width * self.height,
            forall|x: int, y: int|
                0 <= x < self.width && 0 <= y < self.height ==> img@[y * self.width + x]
                    == spec_render_pixel(*self, x, y, seed),
    {
        let w = self.width;
        let hgt = self.height;
        let iters = self.iterations;
        let n = w * hgt;
        let mut buffer = Buffer::new(w, hgt);
        let mut idx: usize = 0;
        while idx < n
            invariant
                0 <= idx <= n,
                n == w * hgt,
                w == self.width,
                hgt == self.height,
                iters == self.iterations,
                self.wf(),
                buffer.wf(),
                buffer.width == w,
                buffer.height == hgt,
                buffer.samples@.len() == n,
                forall|i2: int|
                    0 <= i2 < idx ==> (#[trigger] buffer.samples@[i2])@ == spec_samples(*self,
                        i2 % (w as int), i2 / (w as int), spec_pixel_seed(seed, i2),
                        iters as int).0,
                forall|i2: int| idx <= i2 < n ==> (#[trigger] buffer.samples@[i2])@.len() == 0,
            decreases n - idx,
        {
            let x = idx % w;
            let y = idx / w;
            proof {
                vstd::arithmetic::div_mod::lemma_fundamental_div_mod(idx as int, w as int);
                assert(y < hgt) by (nonlinear_arith)
                    requires
                        idx as int == (w as int) * (y as int) + x as int,
                        0 <= (x as int) < (w as int),
                        (idx as int) < (w as int) * (hgt as int),
                        (w as int) >= 1,
                        (y as int) >= 0,
                ;
                assert((y as int) * (w as int) + x as int == idx as int) by (nonlinear_arith)
                    requires
                        idx as int == (w as int) * (y as int) + x as int,
                ;
            }
            self.render_pixel_into(&mut buffer, x, y, idx, seed);
            idx = idx + 1;
        }
        proof {
            assert forall|x: int, y: int|
                0 <= x < w && 0 <= y < hgt implies (#[trigger] buffer.cell(x, y)).len()
                >= 1 by {
                lemma_pixel_index(w as int, hgt as int, x, y);
                lemma_samples_len(*self, x, y, spec_pixel_seed(seed, y * w + x), iters as int);
            }
        }
        let img = buffer.finalize();
        proof {
            assert forall|x: int, y: int|
                0 <= x < w && 0 <= y < hgt implies img@[y * (w as int) + x] == spec_render_pixel(
                *self, x, y, seed) by {
                lemma_pixel_index(w as int, hgt as int, x, y);
                let i2 = y * (w as int) + x;
                assert(buffer.samples@[i2]@ == spec_samples(*self, i2 % (w as int), i2 / (
                w as int), spec_pixel_seed(seed, i2), iters as int).0);
                assert(buffer.samples@[i2]@ == spec_samples(*self, x, y, spec_pixel_seed(seed,
                    i2), iters as int).0);
                assert(buffer.cell(x, y) == buffer.samples@[i2]@);
                assert(img@[i2] == spec_average(buffer.cell(x, y)));
            }
        }
        img
    }
}

/// A flat pixel index decomposes back into its column and row.
proof fn lemma_pixel_index(w: int, h: int, x: int, y: int)
    requires
        w >= 1,
        h >= 1,
        0 <= x < w,
        0 <= y < h,
    ensures
        0 <= y * w + x < w * h,
        (y * w + x) % w == x,
        (y * w + x) / w == y,
{
    assert(y * w + x < w * h && 0 <= y * w) by (nonlinear_arith)
        requires
            0 <= x < w,
            0 <= y <= h - 1,
            w >= 1,
    ;
    assert(y * w + x == w * y + x) by (nonlinear_arith);
    vstd::arithmetic::div_mod::lemma_fundamental_div_mod_converse(y * w + x, w, y, x);
}

/// `k` draws make `k` samples.
proof fn lemma_samples_len(ren: Renderer, x: int, y: int, st: u64, k: int)
    requires
        k >= 0,
    ensures
        spec_samples(ren, x, y, st, k).0.len() == k,
    decreases k,
{
    if k > 0 {
        lemma_samples_len(ren, x, y, st, k - 1);
    }
}

/// What a well-formed material hands out -- albedo or emission -- is
/// its stored color, so it is a displayable color.
proof fn lemma_material_colors(m: Material, r: Ray, i: ShapeCollisionInformation, sc: Vec3)
    requires
        m.wf(),
    ensures
        ({
            let mci = spec_evaluate(m, r, i, sc);
            &&& mci.reflection_information is Some ==> nonneg(
                mci.reflection_information->Some_0.albedo) && bounded(
                mci.reflection_information->Some_0.albedo, SCALE as int)
            &&& mci.emission_information is Some ==> nonneg(
                mci.emission_information->Some_0.color) && bounded(
                mci.emission_information->Some_0.color, SCALE as int)
        }),
{
}

} // verus!
