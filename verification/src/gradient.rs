use vstd::prelude::*;

use crate::color::RgbaColor;
use crate::errors::BackgroundError;
use crate::handle::PixelBuffer;
use crate::math::{clamp_i64, clamp_int, cos_fp, cos_fp_spec, is_sqrt_floor, isqrt64, sin_fp,
    sin_fp_spec};

verus! {

/// Whether `csscolorparser` accepts `s` as a CSS color.
pub uninterp spec fn is_css_color(s: Seq<char>) -> bool;

/// The `n` colors that `colorgrad` samples, evenly spaced over its domain,
/// from the gradient built of the given CSS color stops. The result is a
/// function of the stops and `n` alone.
pub uninterp spec fn ramp_of(stops: Seq<Seq<char>>, n: nat) -> Seq<RgbaColor>;

#[verifier::external_type_specification]
#[verifier::external_body]
pub struct ExRng(fastrand::Rng);

/// Relies on `fastrand::Rng::u32`: a value drawn from `0..n`. It panics
/// only on an empty range, which the precondition rules out.
#[verifier::external_body]
fn rand_below(rng: &mut fastrand::Rng, n: u32) -> (r: u32)
    requires
        n >= 1,
    ensures
        r < n,
{
    rng.u32(0..n)
}

/// Relies on `colorgrad::CustomGradient`: `html_colors` records exactly the
/// stop strings that fail CSS color parsing, `build` fails exactly when one
/// did (no domain is set here, so no other failure case is reachable), and
/// `Gradient::colors(n)` returns `n` colors evenly spaced over the domain,
/// a function of the stops and `n` alone; `Color::to_rgba8` is their 8-bit
/// encoding.
#[verifier::external_body]
fn sample_gradient(stops: &Vec<String>, n: usize) -> (r: Option<Vec<RgbaColor>>)
    ensures
        r is Some <==> (forall|i: int|
            0 <= i < stops@.len() ==> is_css_color(#[trigger] stops@[i]@)),
        r is Some ==> r.unwrap()@.len() == n,
        r is Some ==> r.unwrap()@ == ramp_of(stops.deep_view(), n as nat),
{
    let refs: Vec<&str> = stops.iter().map(|s| s.as_str()).collect();
    match colorgrad::CustomGradient::new().html_colors(&refs).build() {
        Ok(grad) => {
            let mut out: Vec<RgbaColor> = Vec::with_capacity(n);
            for c in grad.colors(n) {
                let p = c.to_rgba8();
                out.push(RgbaColor { r: p[0], g: p[1], b: p[2], a: p[3] });
            }
            Some(out)
        },
        Err(_) => None,
    }
}

/// How a gradient sweeps across the buffer. Angles are whole degrees,
/// normalized to `[0, 360)`; radial parameters are per-mille fractions of
/// the buffer size (500 is the centered default).
#[derive(Clone, Copy, PartialEq, Eq, Structural, Debug)]
pub enum GradientOrientation {
    Horizontal,
    Vertical,
    Linear { angle_degrees: i64 },
    Radial { radius_permille: u32, center_x_permille: u32, center_y_permille: u32 },
}

/// A procedural gradient: its orientation, its CSS color stops, and an
/// optional override of the anti-banding dither amount.
pub struct GradientSpec {
    pub orientation: GradientOrientation,
    pub stops: Vec<String>,
    pub noise: Option<u32>,
}

impl GradientSpec {
    pub open spec fn wf(&self) -> bool {
        &&& (self.orientation matches GradientOrientation::Linear { angle_degrees } ==> 0
            <= angle_degrees < 360)
        &&& (self.noise matches Some(n) ==> n <= 65535)
    }

    pub open spec fn stops_valid(&self) -> bool {
        forall|i: int| 0 <= i < self.stops@.len() ==> is_css_color(#[trigger] self.stops@[i]@)
    }

    /// Structural equality of two specifications, the cache-key relation.
    pub open spec fn key_eq(&self, other: &GradientSpec) -> bool {
        &&& self.orientation == other.orientation
        &&& self.noise == other.noise
        &&& self.stops.deep_view() == other.stops.deep_view()
    }

    pub fn equals(&self, other: &GradientSpec) -> (r: bool)
        ensures
            r == self.key_eq(other),
    {
        let same_orientation = match (self.orientation, other.orientation) {
            (GradientOrientation::Horizontal, GradientOrientation::Horizontal) => true,
            (GradientOrientation::Vertical, GradientOrientation::Vertical) => true,
            (
                GradientOrientation::Linear { angle_degrees: a },
                GradientOrientation::Linear { angle_degrees: b },
            ) => a == b,
            (
                GradientOrientation::Radial {
                    radius_permille: r1,
                    center_x_permille: x1,
                    center_y_permille: y1,
                },
                GradientOrientation::Radial {
                    radius_permille: r2,
                    center_x_permille: x2,
                    center_y_permille: y2,
                },
            ) => r1 == r2 && x1 == x2 && y1 == y2,
            _ => false,
        };
        if !same_orientation {
            return false;
        }
        let same_noise = match (self.noise, other.noise) {
            (Option::None, Option::None) => true,
            (Option::Some(a), Option::Some(b)) => a == b,
            _ => false,
        };
        if !same_noise {
            return false;
        }
        if self.stops.len() != other.stops.len() {
            proof {
                assert(self.stops.deep_view().len() != other.stops.deep_view().len());
            }
            return false;
        }
        let mut i: usize = 0;
        while i < self.stops.len()
            invariant
                i <= self.stops@.len(),
                self.stops@.len() == other.stops@.len(),
                forall|k: int| 0 <= k < i ==> self.stops@[k]@ == #[trigger] other.stops@[k]@,
            decreases self.stops@.len() - i,
        {
            if !(self.stops[i] == other.stops[i]) {
                proof {
                    assert(self.stops.deep_view()[i as int] != other.stops.deep_view()[i as int]);
                }
                return false;
            }
            i = i + 1;
        }
        proof {
            assert(self.stops.deep_view() =~= other.stops.deep_view());
        }
        true
    }

    /// An owned copy, equal to `self` as a cache key.
    pub fn copy_key(&self) -> (r: GradientSpec)
        ensures
            r.orientation == self.orientation,
            r.noise == self.noise,
            r.stops@ == self.stops@,
            r.key_eq(self),
            r.wf() == self.wf(),
            r.stops_valid() == self.stops_valid(),
    {
        let mut stops: Vec<String> = Vec::new();
        let mut i: usize = 0;
        while i < self.stops.len()
            invariant
                i <= self.stops@.len(),
                stops@ == self.stops@.take(i as int),
            decreases self.stops@.len() - i,
        {
            stops.push(self.stops[i].clone());
            proof {
                assert(stops@ =~= self.stops@.take(i as int + 1));
            }
            i = i + 1;
        }
        proof {
            assert(stops@ =~= self.stops@);
        }
        GradientSpec { orientation: self.orientation, stops, noise: self.noise }
    }
}

/// The dither amount: the explicit override, or 16 for radial gradients
/// and 64 otherwise.
pub open spec fn noise_of(g: GradientSpec) -> u32 {
    match g.noise {
        Some(n) => n,
        None => if g.orientation matches GradientOrientation::Radial { .. } {
            16
        } else {
            64
        },
    }
}

pub fn noise_amount(g: &GradientSpec) -> (r: u32)
    ensures
        r == noise_of(*g),
{
    match g.noise {
        Option::Some(n) => n,
        Option::None => match g.orientation {
            GradientOrientation::Radial { .. } => 16,
            _ => 64,
        },
    }
}

/// `v * p / 1000` capped: how a per-mille fraction of a pixel length is
/// taken, kept within machine range.
pub open spec fn permille_cap(v: int, p: int, cap: int) -> int {
    let x = v * p / 1000;
    if x > cap {
        cap
    } else {
        x
    }
}

/// The radius of a radial gradient, in pixels, capped at the largest
/// buffer this library rasterizes.
pub open spec fn radial_radius(w: int, radius_permille: u32) -> int {
    permille_cap(w, radius_permille as int, 65535)
}

/// A radial center coordinate in pixels; a focal point may lie outside
/// the buffer, capped only to keep the distance arithmetic in range.
pub open spec fn radial_center(v: int, center_permille: u32) -> int {
    permille_cap(v, center_permille as int, 1000000)
}

/// How many evenly spaced samples the rasterizer draws from the gradient:
/// one per unit of its scalar domain, plus the endpoint.
pub open spec fn ramp_len(g: GradientSpec, w: int, h: int) -> int {
    match g.orientation {
        GradientOrientation::Horizontal => w + 1,
        GradientOrientation::Vertical => h + 1,
        GradientOrientation::Linear { .. } => w + 1,
        GradientOrientation::Radial { radius_permille, .. } => radial_radius(w, radius_permille)
            + 1,
    }
}

/// The sample ramp a `w` by `h` rasterization of `g` reads its pixels from.
pub open spec fn gradient_ramp(g: GradientSpec, w: int, h: int) -> Seq<RgbaColor> {
    ramp_of(g.stops.deep_view(), ramp_len(g, w, h) as nat)
}

/// A jitter drawn from a dither range of size `noise` (zero when dithering
/// is off).
pub open spec fn jitter_ok(j: int, noise: int) -> bool {
    0 <= j < if noise == 0 {
        1
    } else {
        noise
    }
}

pub open spec fn abs_int(v: int) -> int {
    if v < 0 {
        -v
    } else {
        v
    }
}

/// Radial dither is suppressed within `noise` pixels of the center on each
/// axis, to keep the jitter from wrapping around the focal point.
pub open spec fn radial_jitter_ok(j: int, delta: int, noise: int) -> bool {
    jitter_ok(j, noise) && (abs_int(delta) < noise ==> j == 0)
}

pub open spec fn sq(v: int) -> int {
    v * v
}

/// Ramp index of a linear-orientation pixel: the center-origin coordinates
/// are projected on the rotation axis (fixed-point, scaled by `TRIG_ONE`
/// and doubled to avoid half-pixels) and remapped from the domain
/// `[-w/2, w/2)` onto `[0, w]`.
pub open spec fn linear_index(w: int, h: int, x: int, y: int, cfp: int, sfp: int, j: int) -> int {
    let t2 = (2 * x - w) * cfp - (2 * y - h) * sfp;
    let num = t2 + w * 4096;
    let base = if num <= 0 {
        0
    } else {
        num / 8192
    };
    clamp_int(base - j, 0, w)
}

/// What every pixel of a rasterized gradient holds: a ramp sample whose
/// index is the pixel's position along the orientation's sweep, displaced
/// by some dither jitter from the allowed range. `p` is the row-major
/// pixel position.
pub open spec fn pixel_ok(
    g: GradientSpec,
    w: int,
    h: int,
    ramp: Seq<RgbaColor>,
    p: int,
    c: RgbaColor,
) -> bool {
    let x = p % w;
    let y = p / w;
    let noise = noise_of(g) as int;
    match g.orientation {
        GradientOrientation::Horizontal => exists|j: int|
            jitter_ok(j, noise) && c == ramp[clamp_int(x - j, 0, w)],
        GradientOrientation::Vertical => exists|j: int|
            jitter_ok(j, noise) && c == ramp[clamp_int(y - j, 0, h)],
        GradientOrientation::Linear { angle_degrees } => exists|j: int|
            jitter_ok(j, noise) && c == ramp[linear_index(
                w,
                h,
                x,
                y,
                cos_fp_spec(angle_degrees as int),
                sin_fp_spec(angle_degrees as int),
                j,
            )],
        GradientOrientation::Radial { radius_permille, center_x_permille, center_y_permille } => {
            let cx = radial_center(w, center_x_permille);
            let cy = radial_center(h, center_y_permille);
            let rad = radial_radius(w, radius_permille);
            exists|jx: int, jy: int, d: int|
                #[trigger] radial_jitter_ok(jx, x - cx, noise) && #[trigger] radial_jitter_ok(
                    jy,
                    y - cy,
                    noise,
                ) && #[trigger] is_sqrt_floor(sq(x - cx - jx) + sq(y - cy - jy), d) && c
                    == ramp[clamp_int(d, 0, rad)]
        },
    }
}

#[verifier::loop_isolation(false)]
fn fill_horizontal(
    Ghost(g): Ghost<GradientSpec>,
    width: u32,
    height: u32,
    ramp: &Vec<RgbaColor>,
    noise: u32,
    rng: &mut fastrand::Rng,
) -> (out: Vec<RgbaColor>)
    requires
        g.orientation is Horizontal,
        noise == noise_of(g),
        width <= 65535,
        height <= 65535,
        ramp@ == gradient_ramp(g, width as int, height as int),
        ramp@.len() == width as int + 1,
    ensures
        out@.len() == width as int * height as int,
        forall|p: int|
            0 <= p < out@.len() ==> pixel_ok(
                g,
                width as int,
                height as int,
                gradient_ramp(g, width as int, height as int),
                p,
                #[trigger] out@[p],
            ),
{
    let w = width as usize;
    let h = height as usize;
    let mut out: Vec<RgbaColor> = Vec::new();
    let mut y: usize = 0;
    while y < h
        invariant
            y <= h,
            out@.len() == y * w,
            forall|p: int|
                0 <= p < out@.len() ==> pixel_ok(
                    g,
                    width as int,
                    height as int,
                    ramp@,
                    p,
                    #[trigger] out@[p],
                ),
        decreases h - y,
    {
        let mut x: usize = 0;
        while x < w
            invariant
                x <= w,
                y < h,
                out@.len() == y * w + x,
                forall|p: int|
                    0 <= p < out@.len() ==> pixel_ok(
                        g,
                        width as int,
                        height as int,
                        ramp@,
                        p,
                        #[trigger] out@[p],
                    ),
            decreases w - x,
        {
            let j: u32 = if noise == 0 {
                0
            } else {
                rand_below(rng, noise)
            };
            let pos = clamp_i64(x as i64 - j as i64, 0, width as i64);
            let c = ramp[pos as usize];
            let ghost prev = out@;
            out.push(c);
            proof {
                let q = prev.len() as int;
                assert(q % (width as int) == x as int && q / (width as int) == y as int)
                    by (nonlinear_arith)
                    requires
                        0 <= x < width,
                        0 <= y,
                        q == y * (width as int) + x,
                ;
                assert(jitter_ok(j as int, noise as int));
                assert(out@[q] == ramp@[clamp_int(x as int - j as int, 0, width as int)]);
                assert(pixel_ok(g, width as int, height as int, ramp@, q, out@[q]));
                assert(forall|p: int| 0 <= p < q ==> out@[p] == prev[p]);
            }
            x = x + 1;
        }
        proof {
            assert((y as int + 1) * (w as int) == y as int * (w as int) + (w as int))
                by (nonlinear_arith);
        }
        y = y + 1;
    }
    proof {
        assert(out@.len() == (width as int) * (height as int)) by (nonlinear_arith)
            requires
                out@.len() == (height as int) * (width as int),
        ;
    }
    out
}

#[verifier::loop_isolation(false)]
fn fill_vertical(
    Ghost(g): Ghost<GradientSpec>,
    width: u32,
    height: u32,
    ramp: &Vec<RgbaColor>,
    noise: u32,
    rng: &mut fastrand::Rng,
) -> (out: Vec<RgbaColor>)
    requires
        g.orientation is Vertical,
        noise == noise_of(g),
        width <= 65535,
        height <= 65535,
        ramp@ == gradient_ramp(g, width as int, height as int),
        ramp@.len() == height as int + 1,
    ensures
        out@.len() == width as int * height as int,
        forall|p: int|
            0 <= p < out@.len() ==> pixel_ok(
                g,
                width as int,
                height as int,
                gradient_ramp(g, width as int, height as int),
                p,
                #[trigger] out@[p],
            ),
{
    let w = width as usize;
    let h = height as usize;
    let mut out: Vec<RgbaColor> = Vec::new();
    let mut y: usize = 0;
    while y < h
        invariant
            y <= h,
            out@.len() == y * w,
            forall|p: int|
                0 <= p < out@.len() ==> pixel_ok(
                    g,
                    width as int,
                    height as int,
                    ramp@,
                    p,
                    #[trigger] out@[p],
                ),
        decreases h - y,
    {
        let mut x: usize = 0;
        while x < w
            invariant
                x <= w,
                y < h,
                out@.len() == y * w + x,
                forall|p: int|
                    0 <= p < out@.len() ==> pixel_ok(
                        g,
                        width as int,
                        height as int,
                        ramp@,
                        p,
                        #[trigger] out@[p],
                    ),
            decreases w - x,
        {
            let j: u32 = if noise == 0 {
                0
            } else {
                rand_below(rng, noise)
            };
            let pos = clamp_i64(y as i64 - j as i64, 0, height as i64);
            let c = ramp[pos as usize];
            let ghost prev = out@;
            out.push(c);
            proof {
                let q = prev.len() as int;
                assert(q % (width as int) == x as int && q / (width as int) == y as int)
                    by (nonlinear_arith)
                    requires
                        0 <= x < width,
                        0 <= y,
                        q == y * (width as int) + x,
                ;
                assert(jitter_ok(j as int, noise as int));
                assert(out@[q] == ramp@[clamp_int(y as int - j as int, 0, height as int)]);
                assert(pixel_ok(g, width as int, height as int, ramp@, q, out@[q]));
                assert(forall|p: int| 0 <= p < q ==> out@[p] == prev[p]);
            }
            x = x + 1;
        }
        proof {
            assert((y as int + 1) * (w as int) == y as int * (w as int) + (w as int))
                by (nonlinear_arith);
        }
        y = y + 1;
    }
    proof {
        assert(out@.len() == (width as int) * (height as int)) by (nonlinear_arith)
            requires
                out@.len() == (height as int) * (width as int),
        ;
    }
    out
}

/// The fixed-point projection step of a linear-orientation pixel.
fn linear_pos(width: u32, height: u32, cfp: i64, sfp: i64, x: u32, y: u32, j: u32) -> (pos: i64)
    requires
        width <= 65535,
        height <= 65535,
        x < width,
        y < height,
        -4096 <= cfp <= 4096,
        -4096 <= sfp <= 4096,
        j <= 65535,
    ensures
        pos == linear_index(width as int, height as int, x as int, y as int, cfp as int, sfp as int, j as int),
        0 <= pos <= width as int,
{
    let a = 2 * (x as i64) - (width as i64);
    let b = 2 * (y as i64) - (height as i64);
    proof {
        assert(-65535 * 4096 <= a * cfp <= 65535 * 4096) by (nonlinear_arith)
            requires
                -65535 <= a <= 65535,
                -4096 <= cfp <= 4096,
        ;
        assert(-65535 * 4096 <= b * sfp <= 65535 * 4096) by (nonlinear_arith)
            requires
                -65535 <= b <= 65535,
                -4096 <= sfp <= 4096,
        ;
    }
    let t2 = a * cfp - b * sfp;
    let num = t2 + (width as i64) * 4096;
    let base: i64 = if num <= 0 {
        0
    } else {
        num / 8192
    };
    clamp_i64(base - (j as i64), 0, width as i64)
}

#[verifier::loop_isolation(false)]
fn fill_linear(
    Ghost(g): Ghost<GradientSpec>,
    width: u32,
    height: u32,
    ramp: &Vec<RgbaColor>,
    noise: u32,
    cfp: i64,
    sfp: i64,
    rng: &mut fastrand::Rng,
) -> (out: Vec<RgbaColor>)
    requires
        g.orientation matches GradientOrientation::Linear { angle_degrees } && cfp == cos_fp_spec(
            angle_degrees as int,
        ) && sfp == sin_fp_spec(angle_degrees as int),
        noise == noise_of(g),
        noise <= 65535,
        width <= 65535,
        height <= 65535,
        -4096 <= cfp <= 4096,
        -4096 <= sfp <= 4096,
        ramp@ == gradient_ramp(g, width as int, height as int),
        ramp@.len() == width as int + 1,
    ensures
        out@.len() == width as int * height as int,
        forall|p: int|
            0 <= p < out@.len() ==> pixel_ok(
                g,
                width as int,
                height as int,
                gradient_ramp(g, width as int, height as int),
                p,
                #[trigger] out@[p],
            ),
{
    let w = width as usize;
    let h = height as usize;
    let mut out: Vec<RgbaColor> = Vec::new();
    let mut y: usize = 0;
    while y < h
        invariant
            y <= h,
            out@.len() == y * w,
            forall|p: int|
                0 <= p < out@.len() ==> pixel_ok(
                    g,
                    width as int,
                    height as int,
                    ramp@,
                    p,
                    #[trigger] out@[p],
                ),
        decreases h - y,
    {
        let mut x: usize = 0;
        while x < w
            invariant
                x <= w,
                y < h,
                out@.len() == y * w + x,
                forall|p: int|
                    0 <= p < out@.len() ==> pixel_ok(
                        g,
                        width as int,
                        height as int,
                        ramp@,
                        p,
                        #[trigger] out@[p],
                    ),
            decreases w - x,
        {
            let j: u32 = if noise == 0 {
                0
            } else {
                rand_below(rng, noise)
            };
            let pos = linear_pos(width, height, cfp, sfp, x as u32, y as u32, j);
            let c = ramp[pos as usize];
            let ghost prev = out@;
            out.push(c);
            proof {
                let q = prev.len() as int;
                assert(q % (width as int) == x as int && q / (width as int) == y as int)
                    by (nonlinear_arith)
                    requires
                        0 <= x < width,
                        0 <= y,
                        q == y * (width as int) + x,
                ;
                assert(jitter_ok(j as int, noise as int));
                assert(pixel_ok(g, width as int, height as int, ramp@, q, out@[q]));
                assert(forall|p: int| 0 <= p < q ==> out@[p] == prev[p]);
            }
            x = x + 1;
        }
        proof {
            assert((y as int + 1) * (w as int) == y as int * (w as int) + (w as int))
                by (nonlinear_arith);
        }
        y = y + 1;
    }
    proof {
        assert(out@.len() == (width as int) * (height as int)) by (nonlinear_arith)
            requires
                out@.len() == (height as int) * (width as int),
        ;
    }
    out
}

#[verifier::loop_isolation(false)]
fn fill_radial(
    Ghost(g): Ghost<GradientSpec>,
    width: u32,
    height: u32,
    ramp: &Vec<RgbaColor>,
    noise: u32,
    cx: i64,
    cy: i64,
    rad: i64,
    rng: &mut fastrand::Rng,
) -> (out: Vec<RgbaColor>)
    requires
        g.orientation matches GradientOrientation::Radial {
            radius_permille,
            center_x_permille,
            center_y_permille,
        } && cx == radial_center(width as int, center_x_permille) && cy == radial_center(
            height as int,
            center_y_permille,
        ) && rad == radial_radius(width as int, radius_permille),
        noise == noise_of(g),
        noise <= 65535,
        width <= 65535,
        height <= 65535,
        0 <= cx <= 1000000,
        0 <= cy <= 1000000,
        0 <= rad <= 65535,
        ramp@ == gradient_ramp(g, width as int, height as int),
        ramp@.len() == rad + 1,
    ensures
        out@.len() == width as int * height as int,
        forall|p: int|
            0 <= p < out@.len() ==> pixel_ok(
                g,
                width as int,
                height as int,
                gradient_ramp(g, width as int, height as int),
                p,
                #[trigger] out@[p],
            ),
{
    let w = width as usize;
    let h = height as usize;
    let mut out: Vec<RgbaColor> = Vec::new();
    let mut y: usize = 0;
    while y < h
        invariant
            y <= h,
            out@.len() == y * w,
            forall|p: int|
                0 <= p < out@.len() ==> pixel_ok(
                    g,
                    width as int,
                    height as int,
                    ramp@,
                    p,
                    #[trigger] out@[p],
                ),
        decreases h - y,
    {
        let mut x: usize = 0;
        while x < w
            invariant
                x <= w,
                y < h,
                out@.len() == y * w + x,
                forall|p: int|
                    0 <= p < out@.len() ==> pixel_ok(
                        g,
                        width as int,
                        height as int,
                        ramp@,
                        p,
                        #[trigger] out@[p],
                    ),
            decreases w - x,
        {
            let dx = x as i64 - cx;
            let dy = y as i64 - cy;
            let adx = if dx < 0 {
                -dx
            } else {
                dx
            };
            let ady = if dy < 0 {
                -dy
            } else {
                dy
            };
            let jx: u32 = if noise == 0 || adx < noise as i64 {
                0
            } else {
                rand_below(rng, noise)
            };
            let jy: u32 = if noise == 0 || ady < noise as i64 {
                0
            } else {
                rand_below(rng, noise)
            };
            let ax = dx - jx as i64;
            let ay = dy - jy as i64;
            proof {
                assert(0 <= ax * ax <= 1100000 * 1100000 && 0 <= ay * ay <= 1100000 * 1100000)
                    by (nonlinear_arith)
                    requires
                        -1100000 <= ax <= 1100000,
                        -1100000 <= ay <= 1100000,
                ;
            }
            let d2 = (ax * ax + ay * ay) as u64;
            let dist = isqrt64(d2);
            let pos: i64 = if dist > rad as u64 {
                rad
            } else {
                dist as i64
            };
            let c = ramp[pos as usize];
            let ghost prev = out@;
            out.push(c);
            proof {
                let q = prev.len() as int;
                assert(q % (width as int) == x as int && q / (width as int) == y as int)
                    by (nonlinear_arith)
                    requires
                        0 <= x < width,
                        0 <= y,
                        q == y * (width as int) + x,
                ;
                assert(radial_jitter_ok(jx as int, x as int - cx, noise as int));
                assert(radial_jitter_ok(jy as int, y as int - cy, noise as int));
                assert(is_sqrt_floor(sq(ax as int) + sq(ay as int), dist as int));
                assert(pos == clamp_int(dist as int, 0, rad as int));
                assert(pixel_ok(g, width as int, height as int, ramp@, q, out@[q]));
                assert(forall|p: int| 0 <= p < q ==> out@[p] == prev[p]);
            }
            x = x + 1;
        }
        proof {
            assert((y as int + 1) * (w as int) == y as int * (w as int) + (w as int))
                by (nonlinear_arith);
        }
        y = y + 1;
    }
    proof {
        assert(out@.len() == (width as int) * (height as int)) by (nonlinear_arith)
            requires
                out@.len() == (height as int) * (width as int),
        ;
    }
    out
}

/// `v * p / 1000`, the pixel value of a per-mille fraction, capped.
fn scale_permille(v: u32, p: u32, cap: u32) -> (r: u32)
    requires
        v <= 65535,
    ensures
        r == permille_cap(v as int, p as int, cap as int),
        r <= cap,
{
    proof {
        assert(0 <= (v as int) * (p as int) <= 65535 * 0xffff_ffff && 0 <= (v as int) * (p as int)
            / 1000 <= 65535 * 0xffff_ffff) by (nonlinear_arith)
            requires
                0 <= v <= 65535,
                0 <= p <= 0xffff_ffff,
        ;
    }
    let x = (v as u64) * (p as u64) / 1000;
    if x > cap as u64 {
        cap
    } else {
        x as u32
    }
}

/// Rasterizes `g` into a `width` by `height` RGBA frame: the pixels are
/// samples of the gradient's color ramp, positioned by the orientation's
/// sweep and displaced by anti-banding dither (none when the noise amount
/// is zero). Fails exactly when a color stop is not a valid CSS color.
pub fn compute(g: &GradientSpec, width: u32, height: u32, rng: &mut fastrand::Rng) -> (r: Result<
    PixelBuffer,
    BackgroundError,
>)
    requires
        g.wf(),
        width <= 65535,
        height <= 65535,
    ensures
        r is Ok <==> g.stops_valid(),
        r matches Err(e) ==> e == BackgroundError::BuildFailure,
        r matches Ok(pb) ==> pb.width == width && pb.height == height && pb.wf() && forall|p: int|
            0 <= p < pb.pixels@.len() ==> pixel_ok(
                *g,
                width as int,
                height as int,
                gradient_ramp(*g, width as int, height as int),
                p,
                #[trigger] pb.pixels@[p],
            ),
{
    let n: usize = match g.orientation {
        GradientOrientation::Horizontal => width as usize + 1,
        GradientOrientation::Vertical => height as usize + 1,
        GradientOrientation::Linear { .. } => width as usize + 1,
        GradientOrientation::Radial { radius_permille, .. } => scale_permille(
            width,
            radius_permille,
            65535,
        ) as usize + 1,
    };
    assert(n == ramp_len(*g, width as int, height as int));
    let ramp = match sample_gradient(&g.stops, n) {
        Option::Some(ramp) => ramp,
        Option::None => {
            return Err(BackgroundError::BuildFailure);
        },
    };
    let noise = noise_amount(g);
    let pixels = match g.orientation {
        GradientOrientation::Horizontal => fill_horizontal(
            Ghost(*g),
            width,
            height,
            &ramp,
            noise,
            rng,
        ),
        GradientOrientation::Vertical => fill_vertical(Ghost(*g), width, height, &ramp, noise, rng),
        GradientOrientation::Linear { angle_degrees } => {
            let cfp = cos_fp(angle_degrees);
            let sfp = sin_fp(angle_degrees);
            proof {
                crate::math::lemma_sin_fp_bounds(angle_degrees as int);
            }
            fill_linear(Ghost(*g), width, height, &ramp, noise, cfp, sfp, rng)
        },
        GradientOrientation::Radial { radius_permille, center_x_permille, center_y_permille } => {
            let cx = scale_permille(width, center_x_permille, 1000000) as i64;
            let cy = scale_permille(height, center_y_permille, 1000000) as i64;
            let rad = scale_permille(width, radius_permille, 65535) as i64;
            fill_radial(Ghost(*g), width, height, &ramp, noise, cx, cy, rad, rng)
        },
    };
    Ok(PixelBuffer { width, height, pixels })
}

} // verus!
