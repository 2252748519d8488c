//! The scene and its rendering pipeline: nearest-hit search over the
//! object list, the recursive bounce shader, and the per-pixel
//! multi-sample integrator.

use rand::Rng;
use vstd::prelude::*;

verus! {

use crate::color::Color;
use crate::hit::Hit;
use crate::math::div_trunc;
use crate::math::div_trunc_i128;
use crate::math::lemma_div_le;
use crate::ray::Ray;
use crate::shapes::Hitable;
use crate::vector::Vec3;
use crate::vector::UNIT;
use vstd::arithmetic::div_mod::lemma_div_multiples_vanish;
use vstd::arithmetic::div_mod::lemma_div_pos_is_pos;
use vstd::arithmetic::div_mod::lemma_fundamental_div_mod;
use vstd::arithmetic::div_mod::lemma_mod_division_less_than_divisor;
use vstd::arithmetic::div_mod::lemma_multiply_divide_le;
use vstd::arithmetic::div_mod::lemma_multiply_divide_lt;
use vstd::arithmetic::mul::lemma_mul_is_commutative;

/// Parts of the bounce blend given to the nearer surface: four of five,
/// the 0.8 surface weight.
pub const SURFACE_BLEND_NUM: u32 = 4;

/// Total parts of the bounce blend.
pub const SURFACE_BLEND_DEN: u32 = 5;

/// Channel value of the mid-gray background an escaped ray contributes.
pub const BACKGROUND_LEVEL: u8 = 127;

/// A scene: the objects rays can strike, and light positions. The lights
/// are carried for scene descriptions but the bounce shader does not
/// consult them.
pub struct Scene<H: Hitable> {
    pub objects: Vec<H>,
    pub lights: Vec<Vec3>,
}

/// The nearest hit among the first `n` objects, paired with the index of
/// the object that produced it. A later object replaces the running
/// nearest only when strictly closer, so on equal distances the earliest
/// object in the list wins.
pub open spec fn closest_hit_up_to<H: Hitable>(objects: Seq<H>, ray: Ray, n: int) -> Option<
    (int, Hit),
>
    decreases n,
{
    if n <= 0 {
        None
    } else {
        let prev = closest_hit_up_to(objects, ray, n - 1);
        match objects[n - 1].spec_hit(ray) {
            Some(h) => match prev {
                Some(p) => if p.1.dist > h.dist {
                    Some((n - 1, h))
                } else {
                    Some(p)
                },
                None => Some((n - 1, h)),
            },
            None => prev,
        }
    }
}

/// The nearest hit over the whole object list.
pub open spec fn spec_scene_hit<H: Hitable>(objects: Seq<H>, ray: Ray) -> Option<(int, Hit)> {
    closest_hit_up_to(objects, ray, objects.len() as int)
}

/// The mirror bounce of `ray` off the surface that `hit` reports: a fresh
/// ray out of the intersection point.
pub open spec fn spec_bounced(ray: Ray, hit: Hit) -> Ray {
    Ray { pos: hit.hit_point, dir: ray.dir.spec_bounce(hit.normal) }
}

/// The color resolved along a ray: none at an exhausted depth budget or
/// an escaped ray; otherwise the struck surface's color, blended with
/// whatever the bounced ray brings back from one depth unit further.
pub open spec fn spec_cast_ray<H: Hitable>(objects: Seq<H>, ray: Ray, depth_left: u32) -> Option<
    Color,
>
    decreases depth_left,
{
    if depth_left == 0 {
        None
    } else {
        match spec_scene_hit(objects, ray) {
            None => None,
            Some(ih) => {
                let bounced = spec_bounced(ray, ih.1);
                let surface = objects[ih.0].spec_color(ih.1.hit_point);
                match spec_cast_ray(objects, bounced, (depth_left - 1) as u32) {
                    Some(bc) => Some(
                        Color::spec_blend(
                            surface,
                            SURFACE_BLEND_NUM as int,
                            SURFACE_BLEND_DEN as int,
                            bc,
                        ),
                    ),
                    None => Some(surface),
                }
            },
        }
    }
}

/// A nearest hit always comes from an object in the searched prefix, and
/// reports that object's own hit record.
pub proof fn lemma_closest_hit_source<H: Hitable>(objects: Seq<H>, ray: Ray, n: int)
    requires
        n <= objects.len(),
    ensures
        closest_hit_up_to(objects, ray, n) matches Some(p) ==> 0 <= p.0 < n
            && objects[p.0].spec_hit(ray) == Some(p.1),
    decreases n,
{
    if n > 0 {
        lemma_closest_hit_source(objects, ray, n - 1);
    }
}

impl<H: Hitable> Scene<H> {
    /// Tests every object and keeps the minimum-distance hit, first object
    /// winning ties; returns it with the index of the object hit.
    pub fn hit(&self, ray: Ray) -> (r: Option<(usize, Hit)>)
        requires
            ray.wf(),
        ensures
            (match r {
                Some(ih) => spec_scene_hit(self.objects@, ray) == Some((ih.0 as int, ih.1))
                    && ih.0 < self.objects@.len() && ih.1.wf(),
                None => spec_scene_hit(self.objects@, ray) is None,
            }),
    {
        let mut maybe_closest: Option<(usize, Hit)> = None;
        let mut idx: usize = 0;
        while idx < self.objects.len()
            invariant
                idx <= self.objects@.len(),
                ray.wf(),
                (match maybe_closest {
                    Some(ih) => closest_hit_up_to(self.objects@, ray, idx as int) == Some(
                        (ih.0 as int, ih.1),
                    ) && ih.0 < idx && ih.1.wf(),
                    None => closest_hit_up_to(self.objects@, ray, idx as int) is None,
                }),
            decreases self.objects@.len() - idx,
        {
            match self.objects[idx].hit(ray) {
                Some(new_hit) => {
                    match maybe_closest {
                        Some(closest) => {
                            if closest.1.dist > new_hit.dist {
                                maybe_closest = Some((idx, new_hit));
                            }
                        },
                        None => {
                            maybe_closest = Some((idx, new_hit));
                        },
                    }
                },
                None => {},
            }
            idx = idx + 1;
        }
        maybe_closest
    }

    /// Resolves a ray to a color by recursive bouncing: depth checked
    /// before the intersection test, surface colors blended outward with
    /// the fixed surface weight.
    pub fn cast_ray(&self, ray: Ray, depth_left: u32) -> (r: Option<Color>)
        requires
            ray.wf(),
        ensures
            r == spec_cast_ray(self.objects@, ray, depth_left),
        decreases depth_left,
    {
        if depth_left == 0 {
            return None;
        }
        match self.hit(ray) {
            None => None,
            Some(ih) => {
                let bounced = Ray {
                    pos: ih.1.hit_point,
                    dir: ray.dir.bounce_with_normal(ih.1.normal),
                };
                let surface = self.objects[ih.0].color(ih.1.hit_point);
                match self.cast_ray(bounced, depth_left - 1) {
                    Some(bounced_color) => Some(
                        Color::blend(surface, SURFACE_BLEND_NUM, SURFACE_BLEND_DEN, bounced_color),
                    ),
                    None => Some(surface),
                }
            },
        }
    }
}

/// Why a render call is refused.
#[derive(Clone, Copy, PartialEq, Eq, Structural, Debug)]
pub enum RenderError {
    /// The sample count was zero: averaging over no samples is undefined.
    ZeroSamples,
}

/// A rendered image: a row-major grid of pixels, row zero at the top.
pub struct Image {
    pub width: u32,
    pub height: u32,
    pub pixels: Vec<Color>,
}

impl Image {
    /// A full buffer: one pixel per grid cell.
    pub open spec fn wf(self) -> bool {
        self.pixels@.len() == self.width * self.height
    }

    /// The pixel at column `x` of row `y`.
    pub open spec fn spec_pixel_at(self, x: int, y: int) -> Color {
        self.pixels@[y * self.width + x]
    }

    /// Reads the pixel at column `x` of row `y`.
    pub fn pixel(&self, x: u32, y: u32) -> (c: Color)
        requires
            self.wf(),
            x < self.width,
            y < self.height,
        ensures
            c == self.spec_pixel_at(x as int, y as int),
    {
        proof {
            vstd::std_specs::vec::axiom_spec_len(&self.pixels);
            lemma_pixel_slot_bounds(
                self.width as int,
                self.height as int,
                1,
                x as int,
                y as int,
            );
        }
        let i: usize = (y as usize) * (self.width as usize) + (x as usize);
        self.pixels[i]
    }
}

/// Every offset pair lies in `[0, UNIT)`: a jitter of less than one pixel.
pub open spec fn valid_offsets(offsets: Seq<(i64, i64)>) -> bool {
    forall|i: int|
        0 <= i < offsets.len() ==> 0 <= (#[trigger] offsets[i]).0 < UNIT && 0 <= offsets[i].1
            < UNIT
}

/// The jittered pinhole camera ray for pixel `(px, py)` of a `w` by `h`
/// image: normalized device coordinates with the y axis flipped (row zero
/// is the top), aimed with unit focal distance down the negative z axis.
pub open spec fn spec_camera_ray(px: int, py: int, w: int, h: int, ox: int, oy: int) -> Ray {
    let ndc_x = div_trunc(px * (UNIT as int) - (w * (UNIT as int)) / 2 + ox, w);
    let ndc_y = div_trunc((h * (UNIT as int)) / 2 - py * (UNIT as int) + oy, h);
    Ray {
        pos: Vec3 { x: 0, y: 0, z: 0 },
        dir: (Vec3 { x: ndc_x as i64, y: ndc_y as i64, z: (-UNIT) as i64 }).spec_unit(),
    }
}

/// The channel triple one sample contributes: the cast ray's color, or the
/// background gray if the ray escaped.
pub open spec fn spec_sample_color<H: Hitable>(
    objects: Seq<H>,
    px: int,
    py: int,
    w: int,
    h: int,
    depth: u32,
    off: (i64, i64),
) -> (nat, nat, nat) {
    match spec_cast_ray(objects, spec_camera_ray(px, py, w, h, off.0 as int, off.1 as int), depth) {
        Some(c) => (c.r as nat, c.g as nat, c.b as nat),
        None => (BACKGROUND_LEVEL as nat, BACKGROUND_LEVEL as nat, BACKGROUND_LEVEL as nat),
    }
}

/// Channel sums of the first `n` samples of pixel `(px, py)`, drawing the
/// sample offsets from `offsets` starting at `base`.
pub open spec fn spec_sample_sum<H: Hitable>(
    objects: Seq<H>,
    px: int,
    py: int,
    w: int,
    h: int,
    depth: u32,
    offsets: Seq<(i64, i64)>,
    base: int,
    n: nat,
) -> (nat, nat, nat)
    decreases n,
{
    if n == 0 {
        (0, 0, 0)
    } else {
        let prev = spec_sample_sum(objects, px, py, w, h, depth, offsets, base, (n - 1) as nat);
        let c = spec_sample_color(objects, px, py, w, h, depth, offsets[base + n - 1]);
        (prev.0 + c.0, prev.1 + c.1, prev.2 + c.2)
    }
}

/// The integrated color of pixel `(px, py)`: each channel summed over the
/// samples and divided by the sample count, rounding down.
pub open spec fn spec_pixel<H: Hitable>(
    objects: Seq<H>,
    px: int,
    py: int,
    w: int,
    h: int,
    samples: u32,
    depth: u32,
    offsets: Seq<(i64, i64)>,
    base: int,
) -> Color {
    let sum = spec_sample_sum(objects, px, py, w, h, depth, offsets, base, samples as nat);
    Color {
        r: (sum.0 / samples as nat) as u8,
        g: (sum.1 / samples as nat) as u8,
        b: (sum.2 / samples as nat) as u8,
    }
}

/// Pixel `(x, y)` of `pixels` holds exactly the multi-sample average the
/// specification assigns it, its samples drawn from its own slice of
/// `offsets`.
pub open spec fn pixel_rendered<H: Hitable>(
    objects: Seq<H>,
    pixels: Seq<Color>,
    w: int,
    h: int,
    samples: u32,
    depth: u32,
    offsets: Seq<(i64, i64)>,
    x: int,
    y: int,
) -> bool {
    pixels[y * w + x] == spec_pixel(
        objects,
        x,
        y,
        w,
        h,
        samples,
        depth,
        offsets,
        (y * w + x) * samples,
    )
}

/// One normalized device coordinate: a jittered pixel offset over the
/// image extent, in fixed point, rounded toward zero.
fn ndc_div(num: i64, d: u32) -> (r: i64)
    requires
        1 <= d,
        -(d as int) * 32768 - 65536 <= num as int,
        num as int <= (d as int) * 32768 + 65536,
    ensures
        r == div_trunc(num as int, d as int),
        -131072 <= r <= 131072,
{
    let q = div_trunc_i128(num as i128, d as i128);
    proof {
        assert((d as int) * 32768 + 65536 <= (d as int) * 131072);
        if num >= 0 {
            lemma_multiply_divide_le(num as int, d as int, 131072);
        } else {
            lemma_multiply_divide_le(-(num as int), d as int, 131072);
        }
    }
    q as i64
}

/// The jittered camera ray through pixel `(px, py)`, built from two
/// fixed-point offsets in `[0, UNIT)`.
fn camera_ray(px: u32, py: u32, w: u32, h: u32, ox: i64, oy: i64) -> (r: Ray)
    requires
        px < w,
        py < h,
        0 <= ox < UNIT,
        0 <= oy < UNIT,
    ensures
        r == spec_camera_ray(px as int, py as int, w as int, h as int, ox as int, oy as int),
        r.wf(),
{
    let half_w: i64 = (((w as u64) * 65536) / 2) as i64;
    let half_h: i64 = (((h as u64) * 65536) / 2) as i64;
    proof {
        lemma_div_multiples_vanish((w as int) * 32768, 2);
        lemma_div_multiples_vanish((h as int) * 32768, 2);
    }
    let num_x: i64 = (px as i64) * 65536 - half_w + ox;
    let num_y: i64 = half_h - (py as i64) * 65536 + oy;
    let ndc_x = ndc_div(num_x, w);
    let ndc_y = ndc_div(num_y, h);
    let v = Vec3 { x: ndc_x, y: ndc_y, z: -UNIT };
    Ray { pos: Vec3 { x: 0, y: 0, z: 0 }, dir: v.unit() }
}

/// Relies on rand's `thread_rng` and `Rng::gen_range` over `0..UNIT`: a
/// draw from a nonempty range lies within it; nothing more is assumed of
/// the value.
#[verifier::external_body]
fn random_unit_offset() -> (r: i64)
    ensures
        0 <= r < UNIT,
{
    rand::thread_rng().gen_range(0..UNIT)
}

impl<H: Hitable> Scene<H> {
    /// Integrates one pixel: casts `samples` jittered rays and averages
    /// the returned colors, escaped rays contributing the background gray.
    fn sample_pixel(
        &self,
        px: u32,
        py: u32,
        w: u32,
        h: u32,
        samples: u32,
        depth: u32,
        offsets: &Vec<(i64, i64)>,
        base: usize,
    ) -> (c: Color)
        requires
            px < w,
            py < h,
            1 <= samples,
            base + samples <= offsets@.len(),
            valid_offsets(offsets@),
        ensures
            c == spec_pixel(
                self.objects@,
                px as int,
                py as int,
                w as int,
                h as int,
                samples,
                depth,
                offsets@,
                base as int,
            ),
    {
        proof {
            vstd::std_specs::vec::axiom_spec_len(offsets);
        }
        let mut sum_r: u64 = 0;
        let mut sum_g: u64 = 0;
        let mut sum_b: u64 = 0;
        let mut j: u32 = 0;
        while j < samples
            invariant
                j <= samples,
                px < w,
                py < h,
                base + samples <= offsets@.len(),
                valid_offsets(offsets@),
                (sum_r as nat, sum_g as nat, sum_b as nat) == spec_sample_sum(
                    self.objects@,
                    px as int,
                    py as int,
                    w as int,
                    h as int,
                    depth,
                    offsets@,
                    base as int,
                    j as nat,
                ),
                sum_r <= 255 * j,
                sum_g <= 255 * j,
                sum_b <= 255 * j,
            decreases samples - j,
        {
            proof {
                vstd::std_specs::vec::axiom_spec_len(offsets);
            }
            let off = offsets[base + j as usize];
            let ray = camera_ray(px, py, w, h, off.0, off.1);
            match self.cast_ray(ray, depth) {
                Some(col) => {
                    sum_r = sum_r + col.r as u64;
                    sum_g = sum_g + col.g as u64;
                    sum_b = sum_b + col.b as u64;
                },
                None => {
                    sum_r = sum_r + BACKGROUND_LEVEL as u64;
                    sum_g = sum_g + BACKGROUND_LEVEL as u64;
                    sum_b = sum_b + BACKGROUND_LEVEL as u64;
                },
            }
            j = j + 1;
        }
        proof {
            lemma_div_le(sum_r as int, 255, samples as int);
            lemma_div_le(sum_g as int, 255, samples as int);
            lemma_div_le(sum_b as int, 255, samples as int);
        }
        Color {
            r: (sum_r / samples as u64) as u8,
            g: (sum_g / samples as u64) as u8,
            b: (sum_b / samples as u64) as u8,
        }
    }

    /// Renders with the sample jitter supplied explicitly, one offset pair
    /// per sample in pixel order: the deterministic core of `render`.
    pub fn render_with_offsets(
        &self,
        rendered_dims: (u32, u32),
        samples: u32,
        depth: u32,
        offsets: &Vec<(i64, i64)>,
    ) -> (r: Result<Image, RenderError>)
        requires
            offsets@.len() == (rendered_dims.0 as int) * (rendered_dims.1 as int) * (
            samples as int),
            valid_offsets(offsets@),
        ensures
            samples == 0 <==> r is Err,
            (r matches Err(e) ==> e == RenderError::ZeroSamples),
            (r matches Ok(img) ==> img.wf() && img.width == rendered_dims.0 && img.height
                == rendered_dims.1 && (forall|x: int, y: int|
                0 <= x < rendered_dims.0 && 0 <= y < rendered_dims.1 ==> #[trigger] pixel_rendered(
                    self.objects@,
                    img.pixels@,
                    rendered_dims.0 as int,
                    rendered_dims.1 as int,
                    samples,
                    depth,
                    offsets@,
                    x,
                    y,
                ))),
    {
        if samples == 0 {
            return Err(RenderError::ZeroSamples);
        }
        let w = rendered_dims.0;
        let h = rendered_dims.1;
        let mut pixels: Vec<Color> = Vec::new();
        let mut py: u32 = 0;
        while py < h
            invariant
                py <= h,
                1 <= samples,
                offsets@.len() == (w as int) * (h as int) * (samples as int),
                valid_offsets(offsets@),
                pixels@.len() == py * w,
                forall|x: int, yy: int|
                    0 <= x < w && 0 <= yy < py ==> #[trigger] pixel_rendered(
                        self.objects@,
                        pixels@,
                        w as int,
                        h as int,
                        samples,
                        depth,
                        offsets@,
                        x,
                        yy,
                    ),
            decreases h - py,
        {
            let mut px: u32 = 0;
            while px < w
                invariant
                    py < h,
                    px <= w,
                    1 <= samples,
                    offsets@.len() == (w as int) * (h as int) * (samples as int),
                    valid_offsets(offsets@),
                    pixels@.len() == py * w + px,
                    forall|x: int, yy: int|
                        0 <= x < w && 0 <= yy < py ==> #[trigger] pixel_rendered(
                            self.objects@,
                            pixels@,
                            w as int,
                            h as int,
                            samples,
                            depth,
                            offsets@,
                            x,
                            yy,
                        ),
                    forall|x: int|
                        0 <= x < px ==> #[trigger] pixel_rendered(
                            self.objects@,
                            pixels@,
                            w as int,
                            h as int,
                            samples,
                            depth,
                            offsets@,
                            x,
                            py as int,
                        ),
                decreases w - px,
            {
                proof {
                    vstd::std_specs::vec::axiom_spec_len(offsets);
                    lemma_pixel_slot_bounds(
                        w as int,
                        h as int,
                        samples as int,
                        px as int,
                        py as int,
                    );
                }
                let base: usize = pixels.len() * (samples as usize);
                let c = self.sample_pixel(px, py, w, h, samples, depth, offsets, base);
                let ghost prior = pixels@;
                pixels.push(c);
                proof {
                    assert forall|x: int, yy: int| 0 <= x < w && 0 <= yy < py implies
                        #[trigger] pixel_rendered(
                            self.objects@,
                            pixels@,
                            w as int,
                            h as int,
                            samples,
                            depth,
                            offsets@,
                            x,
                            yy,
                        ) by {
                        assert(pixel_rendered(
                            self.objects@,
                            prior,
                            w as int,
                            h as int,
                            samples,
                            depth,
                            offsets@,
                            x,
                            yy,
                        ));
                        lemma_row_slot_below(w as int, x, yy, py as int, px as int);
                        assert(pixels@[yy * w + x] == prior[yy * w + x]);
                    }
                    assert forall|x: int| 0 <= x < px + 1 implies #[trigger] pixel_rendered(
                        self.objects@,
                        pixels@,
                        w as int,
                        h as int,
                        samples,
                        depth,
                        offsets@,
                        x,
                        py as int,
                    ) by {
                        if x < px {
                            assert(pixel_rendered(
                                self.objects@,
                                prior,
                                w as int,
                                h as int,
                                samples,
                                depth,
                                offsets@,
                                x,
                                py as int,
                            ));
                            assert(pixels@[py * w + x] == prior[py * w + x]);
                        } else {
                            assert(x == px);
                            assert(prior.len() == py * w + px);
                            assert(base as int == (py * w + px) * (samples as int));
                            assert(pixels@[py * w + x] == c);
                        }
                    }
                }
                px = px + 1;
            }
            proof {
                assert((py as int + 1) * (w as int) == py * w + w) by (nonlinear_arith);
            }
            py = py + 1;
        }
        proof {
            assert((h as int) * (w as int) == (w as int) * (h as int)) by (nonlinear_arith);
        }
        Ok(Image { width: w, height: h, pixels })
    }

    /// Renders by drawing fresh jitter from the process random source:
    /// two independent uniform offsets per sample, then the deterministic
    /// integration over them.
    pub fn render(&self, rendered_dims: (u32, u32), samples: u32, depth: u32) -> (r: Result<
        Image,
        RenderError,
    >)
        requires
            (rendered_dims.0 as int) * (rendered_dims.1 as int) * (samples as int)
                <= usize::MAX as int,
        ensures
            samples == 0 <==> r is Err,
            (r matches Err(e) ==> e == RenderError::ZeroSamples),
            (r matches Ok(img) ==> img.wf() && img.width == rendered_dims.0 && img.height
                == rendered_dims.1 && (exists|offsets: Seq<(i64, i64)>|
                valid_offsets(offsets) && (forall|x: int, y: int|
                    0 <= x < rendered_dims.0 && 0 <= y < rendered_dims.1
                        ==> #[trigger] pixel_rendered(
                        self.objects@,
                        img.pixels@,
                        rendered_dims.0 as int,
                        rendered_dims.1 as int,
                        samples,
                        depth,
                        offsets,
                        x,
                        y,
                    )))),
    {
        if samples == 0 {
            return Err(RenderError::ZeroSamples);
        }
        let w = rendered_dims.0;
        let h = rendered_dims.1;
        proof {
            assert((w as int) * (h as int) <= (w as int) * (h as int) * (samples as int))
                by (nonlinear_arith)
                requires
                    1 <= samples as int,
            ;
        }
        let total: usize = (w as usize) * (h as usize) * (samples as usize);
        let mut offsets: Vec<(i64, i64)> = Vec::new();
        let mut k: usize = 0;
        while k < total
            invariant
                k <= total,
                offsets@.len() == k,
                valid_offsets(offsets@),
            decreases total - k,
        {
            let ox = random_unit_offset();
            let oy = random_unit_offset();
            offsets.push((ox, oy));
            k = k + 1;
        }
        let r = self.render_with_offsets(rendered_dims, samples, depth, &offsets);
        proof {
            let witness = offsets@;
            assert(valid_offsets(witness));
        }
        r
    }
}

/// A pixel's slot and sample base stay within the offset table: the slot
/// index is under `w * h` and its samples end by `w * h * samples`.
proof fn lemma_pixel_slot_bounds(w: int, h: int, samples: int, px: int, py: int)
    requires
        0 <= px < w,
        0 <= py < h,
        1 <= samples,
    ensures
        0 <= py * w + px < w * h,
        (py * w + px) * samples + samples <= w * h * samples,
{
    assert(0 <= py * w + px < w * h) by (nonlinear_arith)
        requires
            0 <= px < w && 0 <= py < h,
    ;
    assert((py * w + px) * samples + samples <= w * h * samples) by (nonlinear_arith)
        requires
            0 <= px < w && 0 <= py < h && 1 <= samples,
    ;
}

/// A ray that hits no object resolves to no color, whatever the depth
/// budget.
pub proof fn lemma_escaped_ray_yields_none<H: Hitable>(objects: Seq<H>, ray: Ray)
    requires
        spec_scene_hit(objects, ray) is None,
    ensures
        forall|depth_left: u32| spec_cast_ray(objects, ray, depth_left) is None,
{
    assert forall|depth_left: u32| spec_cast_ray(objects, ray, depth_left) is None by {
        if depth_left != 0 {
            assert(spec_cast_ray(objects, ray, depth_left) is None);
        }
    }
}

/// With the depth budget exhausted, a cast resolves to no color before any
/// intersection test, whatever the ray and the scene hold.
pub proof fn lemma_depth_zero_yields_none<H: Hitable>(objects: Seq<H>, ray: Ray)
    ensures
        spec_cast_ray(objects, ray, 0) is None,
{
}

/// In a one-object scene whose surface color is the same everywhere, a ray
/// that hits resolves at depth one to exactly that color: the hit consumes
/// the last depth unit, so no bounce can contribute.
pub proof fn lemma_single_object_surface_color<H: Hitable>(objects: Seq<H>, ray: Ray, c: Color)
    requires
        objects.len() == 1,
        forall|p: Vec3| #[trigger] objects[0].spec_color(p) == c,
        spec_scene_hit(objects, ray) is Some,
    ensures
        spec_cast_ray(objects, ray, 1) == Some(c),
{
    lemma_closest_hit_source(objects, ray, 1);
    match spec_scene_hit(objects, ray) {
        Some(ih) => {
            assert(ih.0 == 0);
            assert(objects[ih.0].spec_color(ih.1.hit_point) == c);
            assert(spec_cast_ray(objects, spec_bounced(ray, ih.1), 0) is None);
        },
        None => {
            assert(false);
        },
    }
}

/// When a ray strikes one object and its mirror bounce strikes a second,
/// with nothing after the second hit — the depth budget ends there, or the
/// next bounce escapes — the result blends the first surface color over
/// the second with the fixed surface weight.
pub proof fn lemma_two_bounce_blend<H: Hitable>(
    objects: Seq<H>,
    ray: Ray,
    depth_left: u32,
    first: (int, Hit),
    second: (int, Hit),
    color_a: Color,
    color_b: Color,
)
    requires
        2 <= depth_left,
        spec_scene_hit(objects, ray) == Some(first),
        objects[first.0].spec_color(first.1.hit_point) == color_a,
        spec_scene_hit(objects, spec_bounced(ray, first.1)) == Some(second),
        objects[second.0].spec_color(second.1.hit_point) == color_b,
        depth_left == 2 || spec_scene_hit(
            objects,
            spec_bounced(spec_bounced(ray, first.1), second.1),
        ) is None,
    ensures
        spec_cast_ray(objects, ray, depth_left) == Some(
            Color::spec_blend(
                color_a,
                SURFACE_BLEND_NUM as int,
                SURFACE_BLEND_DEN as int,
                color_b,
            ),
        ),
{
    let bounced1 = spec_bounced(ray, first.1);
    let bounced2 = spec_bounced(bounced1, second.1);
    assert(spec_cast_ray(objects, bounced2, (depth_left - 2) as u32) is None);
    assert(spec_cast_ray(objects, bounced1, (depth_left - 1) as u32) == Some(color_b));
}

/// An empty scene paints every pixel the background gray, whatever the
/// sample count, depth budget and jitter offsets.
pub proof fn lemma_empty_scene_background<H: Hitable>(
    objects: Seq<H>,
    px: int,
    py: int,
    w: int,
    h: int,
    samples: u32,
    depth: u32,
    offsets: Seq<(i64, i64)>,
    base: int,
)
    requires
        objects.len() == 0,
        1 <= samples,
    ensures
        spec_pixel(objects, px, py, w, h, samples, depth, offsets, base) == (Color {
            r: BACKGROUND_LEVEL,
            g: BACKGROUND_LEVEL,
            b: BACKGROUND_LEVEL,
        }),
{
    lemma_empty_scene_sample_sum(objects, px, py, w, h, depth, offsets, base, samples as nat);
    lemma_div_multiples_vanish(BACKGROUND_LEVEL as int, samples as int);
}

/// In an empty scene every sample contributes the background gray, so the
/// channel sums are the gray level times the sample count.
proof fn lemma_empty_scene_sample_sum<H: Hitable>(
    objects: Seq<H>,
    px: int,
    py: int,
    w: int,
    h: int,
    depth: u32,
    offsets: Seq<(i64, i64)>,
    base: int,
    n: nat,
)
    requires
        objects.len() == 0,
    ensures
        spec_sample_sum(objects, px, py, w, h, depth, offsets, base, n) == ((
            (BACKGROUND_LEVEL as nat) * n,
            (BACKGROUND_LEVEL as nat) * n,
            (BACKGROUND_LEVEL as nat) * n,
        )),
    decreases n,
{
    if n > 0 {
        lemma_empty_scene_sample_sum(objects, px, py, w, h, depth, offsets, base, (n - 1) as nat);
        let off = offsets[base + n - 1];
        let cam = spec_camera_ray(px, py, w, h, off.0 as int, off.1 as int);
        assert(spec_scene_hit(objects, cam) is None);
        assert(spec_cast_ray(objects, cam, depth) is None);
    }
}

/// Rendering is a function of the scene, the dimensions, the sample count,
/// the depth budget and the jitter offsets alone: two pixel buffers that
/// each hold the specified multi-sample averages for the same inputs agree
/// pixel for pixel, so repeated renders over a fixed offset stream are
/// identical.
pub proof fn lemma_render_deterministic<H: Hitable>(
    objects: Seq<H>,
    first: Seq<Color>,
    second: Seq<Color>,
    w: int,
    h: int,
    samples: u32,
    depth: u32,
    offsets: Seq<(i64, i64)>,
)
    requires
        0 <= w,
        0 <= h,
        first.len() == w * h,
        second.len() == w * h,
        forall|x: int, y: int|
            0 <= x < w && 0 <= y < h ==> #[trigger] pixel_rendered(
                objects,
                first,
                w,
                h,
                samples,
                depth,
                offsets,
                x,
                y,
            ),
        forall|x: int, y: int|
            0 <= x < w && 0 <= y < h ==> #[trigger] pixel_rendered(
                objects,
                second,
                w,
                h,
                samples,
                depth,
                offsets,
                x,
                y,
            ),
    ensures
        first == second,
{
    assert forall|p: int| 0 <= p < first.len() implies first[p] == second[p] by {
        assert(0 < w && 0 < h) by (nonlinear_arith)
            requires
                0 <= w && 0 <= h && 0 < w * h,
        ;
        lemma_fundamental_div_mod(p, w);
        lemma_mod_division_less_than_divisor(p, w);
        lemma_div_pos_is_pos(p, w);
        lemma_multiply_divide_lt(p, w, h);
        lemma_mul_is_commutative(w, p / w);
        let x = p % w;
        let y = p / w;
        assert(p == y * w + x);
        assert(pixel_rendered(objects, first, w, h, samples, depth, offsets, x, y));
        assert(pixel_rendered(objects, second, w, h, samples, depth, offsets, x, y));
    }
    assert(first =~= second);
}

/// One sample adds at most 255 to a channel, so the channel sums stay
/// within 255 per sample and a 64-bit accumulator holds any sample count a
/// 32-bit counter can ask for without overflowing.
pub proof fn lemma_sample_sum_bounded<H: Hitable>(
    objects: Seq<H>,
    px: int,
    py: int,
    w: int,
    h: int,
    depth: u32,
    offsets: Seq<(i64, i64)>,
    base: int,
    n: nat,
)
    ensures
        spec_sample_sum(objects, px, py, w, h, depth, offsets, base, n).0 <= 255 * n,
        spec_sample_sum(objects, px, py, w, h, depth, offsets, base, n).1 <= 255 * n,
        spec_sample_sum(objects, px, py, w, h, depth, offsets, base, n).2 <= 255 * n,
    decreases n,
{
    if n > 0 {
        lemma_sample_sum_bounded(objects, px, py, w, h, depth, offsets, base, (n - 1) as nat);
    }
}

/// A slot in an earlier row of the pixel grid lies below the current slot.
proof fn lemma_row_slot_below(w: int, x: int, yy: int, py: int, px: int)
    requires
        0 <= x < w,
        0 <= yy < py,
        0 <= px,
    ensures
        0 <= yy * w + x < py * w + px,
{
    assert(0 <= yy * w + x < py * w + px) by (nonlinear_arith)
        requires
            0 <= x < w && 0 <= yy < py && 0 <= px,
    ;
}

} // verus!
