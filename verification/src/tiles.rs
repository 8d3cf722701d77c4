use vstd::prelude::*;

use crate::layer::{BackgroundAttachment, BackgroundHorizontalAlignment, BackgroundLayer,
    BackgroundRepeat, BackgroundSize, BackgroundVerticalAlignment, Dimension, DimensionContext,
    Dimensions, RenderMetrics, SignedDimension};
use crate::loader::LoadedBackgroundLayer;

verus! {

/// Where the texture-atlas collaborator placed a layer's image: the sprite
/// rectangle and the backing texture's size, all in texels.
#[derive(Clone, Copy, PartialEq, Eq, Structural, Debug)]
pub struct SpriteInfo {
    pub tex_left: i64,
    pub tex_top: i64,
    pub tex_width: i64,
    pub tex_height: i64,
    pub texture_width: i64,
    pub texture_height: i64,
}

impl SpriteInfo {
    /// The sprite is at least two texels wide and high (so a one-texel
    /// inset exists) and of plausible atlas size.
    pub open spec fn wf(&self) -> bool {
        &&& 2 <= self.tex_width <= 65535 && 2 <= self.tex_height <= 65535
        &&& 0 <= self.tex_left <= 1000000 && 0 <= self.tex_top <= 1000000
        &&& self.tex_width <= self.texture_width <= 2000000 && self.tex_height
            <= self.texture_height <= 2000000
    }
}

/// Texture coordinates of one tile, in texels; a mirrored tile has its
/// bounds swapped (`x1 > x2` stands for a horizontally flipped sample).
#[derive(Clone, Copy, PartialEq, Eq, Structural, Debug)]
pub struct TexRect {
    pub x1: i64,
    pub x2: i64,
    pub y1: i64,
    pub y2: i64,
}

/// One screen-space tile of a layer.
#[derive(Clone, Copy, PartialEq, Eq, Structural, Debug)]
pub struct Tile {
    pub left: i64,
    pub top: i64,
    pub right: i64,
    pub bottom: i64,
    pub tex: TexRect,
    pub x_index: i64,
    pub y_index: i64,
}

/// The viewport is plausible: at least one pixel, at most a megapixel per
/// axis, with sane dpi and cell sizes.
pub open spec fn viewport_wf(dims: Dimensions, metrics: RenderMetrics) -> bool {
    &&& 1 <= dims.pixel_width <= 1000000 && 1 <= dims.pixel_height <= 1000000
    &&& 1 <= dims.dpi <= 10000
    &&& 1 <= metrics.cell_width <= 10000 && 1 <= metrics.cell_height <= 10000
}

/// An evaluated screen-space length, capped so the geometry stays within
/// machine range.
pub open spec fn capped(v: int) -> int {
    if v > 100000000 {
        100000000int
    } else {
        v
    }
}

/// The uniform-scale size of the texture fitted into (`Contain`) or over
/// (`Cover`) the viewport, or an explicit dimension, on the horizontal
/// axis. `Contain` picks the smaller axis scale, `Cover` the larger.
pub open spec fn spec_width(def: BackgroundLayer, sp: SpriteInfo, dims: Dimensions, metrics: RenderMetrics) -> int {
    let pw = dims.pixel_width as int;
    let ph = dims.pixel_height as int;
    match def.width {
        BackgroundSize::Contain => if pw * (sp.tex_height as int) <= ph * (sp.tex_width as int) {
            pw
        } else {
            (sp.tex_width as int) * ph / (sp.tex_height as int)
        },
        BackgroundSize::Cover => if pw * (sp.tex_height as int) >= ph * (sp.tex_width as int) {
            pw
        } else {
            (sp.tex_width as int) * ph / (sp.tex_height as int)
        },
        BackgroundSize::Dimension(d) => capped(
            crate::layer::eval_dimension(d, DimensionContext::horizontal(dims, metrics)),
        ),
    }
}

/// The vertical counterpart of `spec_width`.
pub open spec fn spec_height(def: BackgroundLayer, sp: SpriteInfo, dims: Dimensions, metrics: RenderMetrics) -> int {
    let pw = dims.pixel_width as int;
    let ph = dims.pixel_height as int;
    match def.height {
        BackgroundSize::Contain => if ph * (sp.tex_width as int) <= pw * (sp.tex_height as int) {
            ph
        } else {
            (sp.tex_height as int) * pw / (sp.tex_width as int)
        },
        BackgroundSize::Cover => if ph * (sp.tex_width as int) >= pw * (sp.tex_height as int) {
            ph
        } else {
            (sp.tex_height as int) * pw / (sp.tex_width as int)
        },
        BackgroundSize::Dimension(d) => capped(
            crate::layer::eval_dimension(d, DimensionContext::vertical(dims, metrics)),
        ),
    }
}

/// The repeat pitch on an axis: the explicit repeat size if configured,
/// else the resolved tile size.
pub open spec fn spec_pitch_x(def: BackgroundLayer, sp: SpriteInfo, dims: Dimensions, metrics: RenderMetrics) -> int {
    match def.repeat_x_size {
        Some(d) => capped(
            crate::layer::eval_dimension(d, DimensionContext::horizontal(dims, metrics)),
        ),
        None => spec_width(def, sp, dims, metrics),
    }
}

pub open spec fn spec_pitch_y(def: BackgroundLayer, sp: SpriteInfo, dims: Dimensions, metrics: RenderMetrics) -> int {
    match def.repeat_y_size {
        Some(d) => capped(crate::layer::eval_dimension(d, DimensionContext::vertical(dims, metrics))),
        None => spec_height(def, sp, dims, metrics),
    }
}

/// The signed pixel value of a configured offset, capped symmetrically.
pub open spec fn spec_offset(off: Option<SignedDimension>, ctx: DimensionContext) -> int {
    match off {
        Some(SignedDimension::Positive(d)) => capped(crate::layer::eval_dimension(d, ctx)),
        Some(SignedDimension::Negative(d)) => -capped(crate::layer::eval_dimension(d, ctx)),
        None => 0int,
    }
}

/// Signed halving that rounds toward zero, as the machine division does.
pub open spec fn half(v: int) -> int {
    if v >= 0 {
        v / 2
    } else {
        -((-v) / 2)
    }
}

fn half_i64(v: i64) -> (r: i64)
    requires
        -1000000000000 <= v <= 1000000000000,
    ensures
        r == half(v as int),
{
    if v >= 0 {
        v / 2
    } else {
        -((-v) / 2)
    }
}

/// The horizontal origin: the viewport's left edge in center-origin
/// coordinates, shifted by the alignment and the configured offset.
pub open spec fn spec_origin_x(def: BackgroundLayer, sp: SpriteInfo, dims: Dimensions, metrics: RenderMetrics) -> int {
    let pw = dims.pixel_width as int;
    let w = spec_width(def, sp, dims, metrics);
    let base = -half(pw) + (match def.horizontal_align {
        BackgroundHorizontalAlignment::Left => 0int,
        BackgroundHorizontalAlignment::Right => pw - w,
        BackgroundHorizontalAlignment::Center => half(pw - w),
    });
    base + spec_offset(def.horizontal_offset, DimensionContext::horizontal(dims, metrics))
}

/// The vertical origin before any scroll adjustment.
pub open spec fn spec_origin_y_base(def: BackgroundLayer, sp: SpriteInfo, dims: Dimensions, metrics: RenderMetrics) -> int {
    let ph = dims.pixel_height as int;
    let h = spec_height(def, sp, dims, metrics);
    let base = -half(ph) + (match def.vertical_align {
        BackgroundVerticalAlignment::Top => 0int,
        BackgroundVerticalAlignment::Bottom => ph - h,
        BackgroundVerticalAlignment::Middle => half(ph - h),
    });
    base + spec_offset(def.vertical_offset, DimensionContext::vertical(dims, metrics))
}

/// Scroll parallax: how many whole tiles the scroll distance covers (the
/// starting tile index) and the backward shift of the origin by the
/// fractional remainder, in pixels.
pub open spec fn spec_scroll(def: BackgroundLayer, metrics: RenderMetrics, top: int, pitch_y: int) -> (int, int) {
    match def.attachment.scroll_factor() {
        Some(factor) => {
            let distance_perm = top * (metrics.cell_height as int) * (factor as int);
            let pitch_perm = pitch_y * 1000;
            (distance_perm / pitch_perm, (distance_perm % pitch_perm) / 1000)
        },
        None => (0int, 0int),
    }
}

/// The vertical origin after the scroll shift, and the starting tile row.
pub open spec fn spec_origin_y(def: BackgroundLayer, sp: SpriteInfo, dims: Dimensions, metrics: RenderMetrics, top: int) -> int {
    spec_origin_y_base(def, sp, dims, metrics) - spec_scroll(
        def,
        metrics,
        top,
        spec_pitch_y(def, sp, dims, metrics),
    ).1
}

pub open spec fn spec_start_tile(def: BackgroundLayer, sp: SpriteInfo, dims: Dimensions, metrics: RenderMetrics, top: int) -> int {
    spec_scroll(def, metrics, top, spec_pitch_y(def, sp, dims, metrics)).0
}

/// How many columns the compositor emits: none if the origin is already
/// past the viewport's right edge, one for `NoRepeat`, else enough pitches
/// for a tile's left edge to reach the right edge.
pub open spec fn spec_count_x(def: BackgroundLayer, sp: SpriteInfo, dims: Dimensions, metrics: RenderMetrics) -> int {
    let pw = dims.pixel_width as int;
    let limit = -half(pw) + pw;
    let origin = spec_origin_x(def, sp, dims, metrics);
    let pitch = spec_pitch_x(def, sp, dims, metrics);
    if origin >= limit {
        0int
    } else if def.repeat_x is NoRepeat {
        1int
    } else {
        (limit - origin + pitch - 1) / pitch
    }
}

/// How many rows: none if the origin is already past the bottom, one for
/// `NoRepeat`, else enough pitches to reach the viewport's bottom edge.
pub open spec fn spec_count_y(def: BackgroundLayer, sp: SpriteInfo, dims: Dimensions, metrics: RenderMetrics, top: int) -> int {
    let ph = dims.pixel_height as int;
    let limit = -half(ph) + ph;
    let origin = spec_origin_y(def, sp, dims, metrics, top);
    let pitch = spec_pitch_y(def, sp, dims, metrics);
    if origin >= limit {
        0int
    } else if def.repeat_y is NoRepeat {
        1int
    } else {
        (limit - origin + pitch - 1) / pitch
    }
}

/// The texture rectangle of tile (`xi`, `yi`): the sprite rectangle inset
/// by one texel on every edge, with the horizontal bounds swapped on odd
/// columns under horizontal `Mirror`, and the vertical bounds swapped on
/// odd rows under vertical `Mirror`.
pub open spec fn spec_tex(def: BackgroundLayer, sp: SpriteInfo, xi: int, yi: int) -> TexRect {
    let ix1 = ((sp.tex_left + 1) as i64);
    let ix2 = ((sp.tex_left + sp.tex_width - 1) as i64);
    let iy1 = ((sp.tex_top + 1) as i64);
    let iy2 = ((sp.tex_top + sp.tex_height - 1) as i64);
    let swap_x = def.repeat_x is Mirror && xi % 2 == 1;
    let swap_y = def.repeat_y is Mirror && yi % 2 == 1;
    TexRect {
        x1: if swap_x {
            ix2
        } else {
            ix1
        },
        x2: if swap_x {
            ix1
        } else {
            ix2
        },
        y1: if swap_y {
            iy2
        } else {
            iy1
        },
        y2: if swap_y {
            iy1
        } else {
            iy2
        },
    }
}

/// What the compositor emits for one layer: row-major, one tile per
/// column/row pair, each placed one pitch apart from the origin, bounded
/// by the viewport's right and bottom edges, carrying the one-texel-inset
/// sprite rectangle with Mirror swapping the bounds on odd indices.
pub open spec fn tiles_match(
    def: BackgroundLayer,
    sp: SpriteInfo,
    dims: Dimensions,
    metrics: RenderMetrics,
    top: int,
    ts: Seq<Tile>,
) -> bool {
    let cx = spec_count_x(def, sp, dims, metrics);
    &&& ts.len() == spec_count_y(def, sp, dims, metrics, top) * cx
    &&& forall|t: int|
        0 <= t < ts.len() ==> {
            let tile = #[trigger] ts[t];
            &&& tile.x_index == t % cx
            &&& tile.y_index == spec_start_tile(def, sp, dims, metrics, top) + t / cx
            &&& tile.left == spec_origin_x(def, sp, dims, metrics) + (t % cx) * spec_pitch_x(
                def,
                sp,
                dims,
                metrics,
            )
            &&& tile.top == spec_origin_y(def, sp, dims, metrics, top) + (t / cx) * spec_pitch_y(
                def,
                sp,
                dims,
                metrics,
            )
            &&& tile.right == tile.left + spec_width(def, sp, dims, metrics)
            &&& tile.bottom == tile.top + spec_height(def, sp, dims, metrics)
            &&& tile.left < -half(dims.pixel_width as int) + dims.pixel_width
            &&& tile.top < -half(dims.pixel_height as int) + dims.pixel_height
            &&& tile.tex == spec_tex(def, sp, tile.x_index as int, tile.y_index as int)
        }
}

/// What the compositor's preconditions demand of a layer: positive pitches
/// (a zero pitch would tile forever) and a bounded scroll configuration.
pub open spec fn geometry_wf(def: BackgroundLayer, sp: SpriteInfo, dims: Dimensions, metrics: RenderMetrics, top: int) -> bool {
    &&& sp.wf()
    &&& viewport_wf(dims, metrics)
    &&& 1 <= spec_pitch_x(def, sp, dims, metrics)
    &&& 1 <= spec_pitch_y(def, sp, dims, metrics)
    &&& 0 <= top <= 10000000
    &&& (def.attachment matches BackgroundAttachment::Scroll { factor_permille } ==> factor_permille <= 10000)
}

/// Evaluates a configured signed offset, capped to keep geometry in range.
fn offset_eval(off: Option<SignedDimension>, ctx: &DimensionContext) -> (r: i64)
    ensures
        r == spec_offset(off, *ctx),
        -100000000 <= r <= 100000000,
{
    match off {
        Option::Some(SignedDimension::Positive(d)) => cap_eval(d, ctx),
        Option::Some(SignedDimension::Negative(d)) => -cap_eval(d, ctx),
        Option::None => 0,
    }
}

/// Evaluates a configured length, capped to keep geometry in range.
fn cap_eval(d: Dimension, ctx: &DimensionContext) -> (r: i64)
    ensures
        r == capped(crate::layer::eval_dimension(d, *ctx)),
        0 <= r <= 100000000,
{
    let e = crate::layer::evaluate_as_pixels(d, ctx);
    if e > 100000000 {
        100000000
    } else {
        e as i64
    }
}

/// A verified check of the compositor's preconditions, for a caller to
/// run before `render_background`: the sprite and viewport are in range,
/// the scroll configuration is bounded, and both repeat pitches are at
/// least one pixel (a zero pitch would tile forever).
pub fn geometry_ok(
    def: &BackgroundLayer,
    sp: &SpriteInfo,
    dims: &Dimensions,
    metrics: &RenderMetrics,
    top: i64,
) -> (r: bool)
    ensures
        r == geometry_wf(*def, *sp, *dims, *metrics, top as int),
{
    let sprite_ok = 2 <= sp.tex_width && sp.tex_width <= 65535 && 2 <= sp.tex_height
        && sp.tex_height <= 65535 && 0 <= sp.tex_left && sp.tex_left <= 1000000 && 0 <= sp.tex_top
        && sp.tex_top <= 1000000 && sp.tex_width <= sp.texture_width && sp.texture_width <= 2000000
        && sp.tex_height <= sp.texture_height && sp.texture_height <= 2000000;
    let viewport_ok = 1 <= dims.pixel_width && dims.pixel_width <= 1000000 && 1
        <= dims.pixel_height && dims.pixel_height <= 1000000 && 1 <= dims.dpi && dims.dpi <= 10000
        && 1 <= metrics.cell_width && metrics.cell_width <= 10000 && 1 <= metrics.cell_height
        && metrics.cell_height <= 10000;
    let top_ok = 0 <= top && top <= 10000000;
    let factor_ok = match def.attachment {
        BackgroundAttachment::Scroll { factor_permille } => factor_permille <= 10000,
        BackgroundAttachment::Fixed => true,
    };
    if !(sprite_ok && viewport_ok && top_ok && factor_ok) {
        return false;
    }
    let pw = dims.pixel_width as i64;
    let ph = dims.pixel_height as i64;
    let h_context = DimensionContext::make_horizontal(dims, metrics);
    let v_context = DimensionContext::make_vertical(dims, metrics);
    let tw = sp.tex_width;
    let th = sp.tex_height;
    proof {
        assert(0 <= pw * th <= 65535000000i64 && 0 <= ph * tw <= 65535000000i64 && 0 <= tw * ph
            <= 65535000000i64 && 0 <= th * pw <= 65535000000i64) by (nonlinear_arith)
            requires
                1 <= pw <= 1000000,
                1 <= ph <= 1000000,
                2 <= tw <= 65535,
                2 <= th <= 65535,
        ;
    }
    let width: i64 = match def.width {
        BackgroundSize::Contain => if pw * th <= ph * tw {
            pw
        } else {
            tw * ph / th
        },
        BackgroundSize::Cover => if pw * th >= ph * tw {
            pw
        } else {
            tw * ph / th
        },
        BackgroundSize::Dimension(d) => cap_eval(d, &h_context),
    };
    let height: i64 = match def.height {
        BackgroundSize::Contain => if ph * tw <= pw * th {
            ph
        } else {
            th * pw / tw
        },
        BackgroundSize::Cover => if ph * tw >= pw * th {
            ph
        } else {
            th * pw / tw
        },
        BackgroundSize::Dimension(d) => cap_eval(d, &v_context),
    };
    let pitch_x: i64 = match def.repeat_x_size {
        Option::Some(d) => cap_eval(d, &h_context),
        Option::None => width,
    };
    let pitch_y: i64 = match def.repeat_y_size {
        Option::Some(d) => cap_eval(d, &v_context),
        Option::None => height,
    };
    proof {
        assert(pitch_x == spec_pitch_x(*def, *sp, *dims, *metrics));
        assert(pitch_y == spec_pitch_y(*def, *sp, *dims, *metrics));
    }
    1 <= pitch_x && 1 <= pitch_y
}

/// The arithmetic of the tile counts: `(d + p - 1) / p` pitches cover a
/// distance `d`, and one fewer does not.
pub proof fn lemma_ceil_div(d: int, p: int)
    requires
        1 <= p,
        1 <= d,
    ensures
        ((d + p - 1) / p) * p >= d,
        (((d + p - 1) / p) - 1) * p < d,
        1 <= (d + p - 1) / p <= d,
{
    let x = d + p - 1;
    let c = x / p;
    let r = x % p;
    vstd::arithmetic::div_mod::lemma_fundamental_div_mod(x, p);
    vstd::arithmetic::div_mod::lemma_mod_bound(x, p);
    assert(c * p >= d && (c - 1) * p < d && 1 <= c <= d) by (nonlinear_arith)
        requires
            x == p * c + r,
            0 <= r < p,
            x == d + p - 1,
            1 <= p,
            1 <= d,
    ;
}

/// Computes every per-layer quantity the tile loops need, pinned to the
/// spec functions above, together with the range facts that keep the loop
/// arithmetic in machine bounds.
#[verifier::loop_isolation(false)]
#[verifier::rlimit(100)]
#[verifier::spinoff_prover]
fn layer_geometry(
    def: &BackgroundLayer,
    sp: &SpriteInfo,
    dims: &Dimensions,
    metrics: &RenderMetrics,
    top: i64,
) -> (g: (i64, i64, i64, i64, i64, i64, i64, i64, i64))
    requires
        geometry_wf(*def, *sp, *dims, *metrics, top as int),
    ensures
        g.0 == spec_width(*def, *sp, *dims, *metrics),
        g.1 == spec_height(*def, *sp, *dims, *metrics),
        g.2 == spec_pitch_x(*def, *sp, *dims, *metrics),
        g.3 == spec_pitch_y(*def, *sp, *dims, *metrics),
        g.4 == spec_origin_x(*def, *sp, *dims, *metrics),
        g.5 == spec_origin_y(*def, *sp, *dims, *metrics, top as int),
        g.6 == spec_start_tile(*def, *sp, *dims, *metrics, top as int),
        g.7 == spec_count_x(*def, *sp, *dims, *metrics),
        g.8 == spec_count_y(*def, *sp, *dims, *metrics, top as int),
        0 <= g.0 <= 66000000000 && 0 <= g.1 <= 66000000000,
        1 <= g.2 <= 66000000000 && 1 <= g.3 <= 66000000000,
        -200000000000 <= g.4 <= 200000000000,
        -200000000000 <= g.5 <= 200000000000,
        0 <= g.6 <= 1000000000000000i64,
        0 <= g.7,
        0 <= g.8,
        g.7 > 0 ==> g.4 < -half(dims.pixel_width as int) + dims.pixel_width && (g.7 - 1) * g.2
            < (-half(dims.pixel_width as int) + dims.pixel_width) - g.4,
        !(def.repeat_x is NoRepeat) && g.4 < -half(dims.pixel_width as int) + dims.pixel_width
            ==> g.7 * g.2 >= (-half(dims.pixel_width as int) + dims.pixel_width) - g.4,
        g.8 > 0 ==> g.5 < -half(dims.pixel_height as int) + dims.pixel_height && (g.8 - 1) * g.3
            < (-half(dims.pixel_height as int) + dims.pixel_height) - g.5,
        !(def.repeat_y is NoRepeat) && g.5 < -half(dims.pixel_height as int) + dims.pixel_height
            ==> g.8 * g.3 >= (-half(dims.pixel_height as int) + dims.pixel_height) - g.5,
{
    let pw = dims.pixel_width as i64;
    let ph = dims.pixel_height as i64;
    let h_context = DimensionContext::make_horizontal(dims, metrics);
    let v_context = DimensionContext::make_vertical(dims, metrics);
    let tw = sp.tex_width;
    let th = sp.tex_height;

    proof {
        assert(0 <= pw * th <= 65535000000i64 && 0 <= ph * tw <= 65535000000i64 && 0 <= tw * ph
            <= 65535000000i64 && 0 <= th * pw <= 65535000000i64) by (nonlinear_arith)
            requires
                1 <= pw <= 1000000,
                1 <= ph <= 1000000,
                2 <= tw <= 65535,
                2 <= th <= 65535,
        ;
        assert(((tw * ph) as int) / (th as int) <= tw * ph) by (nonlinear_arith)
            requires
                th >= 1,
                tw * ph >= 0,
        ;
        assert(((th * pw) as int) / (tw as int) <= th * pw) by (nonlinear_arith)
            requires
                tw >= 1,
                th * pw >= 0,
        ;
    }
    let width: i64 = match def.width {
        BackgroundSize::Contain => if pw * th <= ph * tw {
            pw
        } else {
            tw * ph / th
        },
        BackgroundSize::Cover => if pw * th >= ph * tw {
            pw
        } else {
            tw * ph / th
        },
        BackgroundSize::Dimension(d) => cap_eval(d, &h_context),
    };
    let height: i64 = match def.height {
        BackgroundSize::Contain => if ph * tw <= pw * th {
            ph
        } else {
            th * pw / tw
        },
        BackgroundSize::Cover => if ph * tw >= pw * th {
            ph
        } else {
            th * pw / tw
        },
        BackgroundSize::Dimension(d) => cap_eval(d, &v_context),
    };
    assert(width == spec_width(*def, *sp, *dims, *metrics));
    assert(height == spec_height(*def, *sp, *dims, *metrics));

    let pitch_x: i64 = match def.repeat_x_size {
        Option::Some(d) => cap_eval(d, &h_context),
        Option::None => width,
    };
    let pitch_y: i64 = match def.repeat_y_size {
        Option::Some(d) => cap_eval(d, &v_context),
        Option::None => height,
    };
    assert(pitch_x == spec_pitch_x(*def, *sp, *dims, *metrics));
    assert(pitch_y == spec_pitch_y(*def, *sp, *dims, *metrics));

    let mut origin_x: i64 = -(pw / 2);
    match def.horizontal_align {
        BackgroundHorizontalAlignment::Left => {},
        BackgroundHorizontalAlignment::Right => {
            origin_x = origin_x + (pw - width);
        },
        BackgroundHorizontalAlignment::Center => {
            origin_x = origin_x + half_i64(pw - width);
        },
    }
    origin_x = origin_x + offset_eval(def.horizontal_offset, &h_context);
    assert(origin_x == spec_origin_x(*def, *sp, *dims, *metrics));

    let top_pixel: i64 = -(ph / 2);
    let mut origin_y: i64 = top_pixel;
    match def.vertical_align {
        BackgroundVerticalAlignment::Top => {},
        BackgroundVerticalAlignment::Bottom => {
            origin_y = origin_y + (ph - height);
        },
        BackgroundVerticalAlignment::Middle => {
            origin_y = origin_y + half_i64(ph - height);
        },
    }
    origin_y = origin_y + offset_eval(def.vertical_offset, &v_context);
    assert(origin_y == spec_origin_y_base(*def, *sp, *dims, *metrics));

    let start_tile: i64;
    match def.attachment {
        BackgroundAttachment::Scroll { factor_permille } => {
            proof {
                assert(0 <= top * (metrics.cell_height as i64) <= 100000000000i64)
                    by (nonlinear_arith)
                    requires
                        0 <= top <= 10000000,
                        1 <= metrics.cell_height <= 10000,
                ;
                assert(0 <= top * (metrics.cell_height as i64) * (factor_permille as i64)
                    <= 1000000000000000i64) by (nonlinear_arith)
                    requires
                        0 <= top * (metrics.cell_height as i64) <= 100000000000i64,
                        0 <= factor_permille <= 10000,
                ;
            }
            let distance_perm = top * (metrics.cell_height as i64) * (factor_permille as i64);
            let pitch_perm = pitch_y * 1000;
            start_tile = distance_perm / pitch_perm;
            let shift = (distance_perm % pitch_perm) / 1000;
            proof {
                vstd::arithmetic::div_mod::lemma_mod_bound(
                    distance_perm as int,
                    pitch_perm as int,
                );
            }
            origin_y = origin_y - shift;
        },
        BackgroundAttachment::Fixed => {
            start_tile = 0;
        },
    }
    assert(origin_y == spec_origin_y(*def, *sp, *dims, *metrics, top as int));
    assert(start_tile == spec_start_tile(*def, *sp, *dims, *metrics, top as int));
    proof {
        if let BackgroundAttachment::Scroll { factor_permille } = def.attachment {
            assert(start_tile >= 0) by (nonlinear_arith)
                requires
                    start_tile == spec_start_tile(*def, *sp, *dims, *metrics, top as int),
                    spec_start_tile(*def, *sp, *dims, *metrics, top as int) == (top as int * (
                    metrics.cell_height as int) * (factor_permille as int)) / (spec_pitch_y(
                        *def,
                        *sp,
                        *dims,
                        *metrics,
                    ) * 1000),
                    top as int * (metrics.cell_height as int) * (factor_permille as int) >= 0,
                    spec_pitch_y(*def, *sp, *dims, *metrics) * 1000 >= 1000,
            ;
        }
    }

    let limit_x: i64 = -(pw / 2) + pw;
    let count_x: i64 = if origin_x >= limit_x {
        0
    } else {
        match def.repeat_x {
            BackgroundRepeat::NoRepeat => 1,
            _ => {
                proof {
                    lemma_ceil_div((limit_x - origin_x) as int, pitch_x as int);
                }
                (limit_x - origin_x + pitch_x - 1) / pitch_x
            },
        }
    };
    let limit_y: i64 = top_pixel + ph;
    let count_y: i64 = if origin_y >= limit_y {
        0
    } else {
        match def.repeat_y {
            BackgroundRepeat::NoRepeat => 1,
            _ => {
                proof {
                    lemma_ceil_div((limit_y - origin_y) as int, pitch_y as int);
                }
                (limit_y - origin_y + pitch_y - 1) / pitch_y
            },
        }
    };
    assert(count_x == spec_count_x(*def, *sp, *dims, *metrics));
    assert(count_y == spec_count_y(*def, *sp, *dims, *metrics, top as int));
    proof {
        assert(0 <= width <= 65535000000i64 && 0 <= height <= 65535000000i64);
        assert(1 <= pitch_x <= 65535000000i64 && 1 <= pitch_y <= 65535000000i64);
        if count_x > 0 {
            if !(def.repeat_x is NoRepeat) {
                lemma_ceil_div((limit_x - origin_x) as int, pitch_x as int);
                assert((count_x - 1) * pitch_x < limit_x - origin_x);
                assert(count_x * pitch_x >= limit_x - origin_x);
            } else {
                assert((count_x - 1) * pitch_x < limit_x - origin_x) by (nonlinear_arith)
                    requires
                        count_x == 1,
                        origin_x < limit_x,
                        pitch_x >= 1,
                ;
            }
        }
        assert(-(pw as int / 2) == -half(pw as int));
        if count_y > 0 {
            if !(def.repeat_y is NoRepeat) {
                lemma_ceil_div((limit_y - origin_y) as int, pitch_y as int);
                assert((count_y - 1) * pitch_y < limit_y - origin_y);
                assert(count_y * pitch_y >= limit_y - origin_y);
            } else {
                assert((count_y - 1) * pitch_y < limit_y - origin_y) by (nonlinear_arith)
                    requires
                        count_y == 1,
                        origin_y < limit_y,
                        pitch_y >= 1,
                ;
            }
        }
    }

    proof {
        if count_y > 0 {
            assert(0 <= (count_y - 1) * pitch_y < limit_y - origin_y);
        }
    }
    (width, height, pitch_x, pitch_y, origin_x, origin_y, start_tile, count_x, count_y)
}

/// Computes the screen-space tiles of one resolved layer for this frame:
/// the layer's image, scaled by its sizing mode, aligned, offset, shifted
/// by scroll parallax, and repeated (or mirrored) across the viewport.
/// Tiles are emitted row-major; every tile's geometry and texture
/// rectangle is pinned by the spec functions above.
#[verifier::loop_isolation(false)]
#[verifier::rlimit(100)]
pub fn render_background(
    def: &BackgroundLayer,
    sp: &SpriteInfo,
    dims: &Dimensions,
    metrics: &RenderMetrics,
    top: i64,
) -> (r: Vec<Tile>)
    requires
        geometry_wf(*def, *sp, *dims, *metrics, top as int),
    ensures
        tiles_match(*def, *sp, *dims, *metrics, top as int, r@),
        def.repeat_x is NoRepeat && spec_origin_x(*def, *sp, *dims, *metrics) < -half(
            dims.pixel_width as int,
        ) + dims.pixel_width ==> spec_count_x(*def, *sp, *dims, *metrics) == 1,
        // a repeated horizontal axis covers the viewport: the columns
        // reach its right edge
        !(def.repeat_x is NoRepeat) && spec_origin_x(*def, *sp, *dims, *metrics) < -half(
            dims.pixel_width as int,
        ) + dims.pixel_width ==> spec_origin_x(*def, *sp, *dims, *metrics) + spec_count_x(
            *def,
            *sp,
            *dims,
            *metrics,
        ) * spec_pitch_x(*def, *sp, *dims, *metrics) >= -half(dims.pixel_width as int)
            + dims.pixel_width,
        // a repeated vertical axis covers the viewport: the rows reach its
        // bottom edge
        !(def.repeat_y is NoRepeat) && spec_origin_y(*def, *sp, *dims, *metrics, top as int)
            < -half(dims.pixel_height as int) + dims.pixel_height ==> spec_origin_y(
            *def,
            *sp,
            *dims,
            *metrics,
            top as int,
        ) + spec_count_y(*def, *sp, *dims, *metrics, top as int) * spec_pitch_y(
            *def,
            *sp,
            *dims,
            *metrics,
        ) >= -half(dims.pixel_height as int) + dims.pixel_height,
{
    let (width, height, pitch_x, pitch_y, origin_x, origin_y, start_tile, count_x, count_y) =
        layer_geometry(def, sp, dims, metrics, top);
    let pw = dims.pixel_width as i64;
    let ph = dims.pixel_height as i64;
    let limit_x: i64 = -(pw / 2) + pw;
    let limit_y: i64 = -(ph / 2) + ph;
    proof {
        assert(-(pw as int / 2) == -half(pw as int));
        assert(-(ph as int / 2) == -half(ph as int));
        if count_x > 0 {
            assert((count_x - 1) * pitch_x < limit_x - origin_x);
        }
        if count_y > 0 {
            assert((count_y - 1) * pitch_y < limit_y - origin_y);
        }
    }
    let mut out: Vec<Tile> = Vec::new();
    let mut yi: i64 = 0;
    while yi < count_y
        invariant
            0 <= yi <= count_y,
            out@.len() == yi * count_x,
            forall|t: int|
                0 <= t < out@.len() ==> {
                    let tile = #[trigger] out@[t];
                    &&& tile.x_index == t % (count_x as int)
                    &&& tile.y_index == start_tile + t / (count_x as int)
                    &&& tile.left == origin_x + (t % (count_x as int)) * pitch_x
                    &&& tile.top == origin_y + (t / (count_x as int)) * pitch_y
                    &&& tile.right == tile.left + width
                    &&& tile.bottom == tile.top + height
                    &&& tile.left < limit_x
                    &&& tile.top < limit_y
                    &&& tile.tex == spec_tex(*def, *sp, tile.x_index as int, tile.y_index as int)
                },
        decreases count_y - yi,
    {
        proof {
            assert(0 <= yi * pitch_y <= (count_y - 1) * pitch_y) by (nonlinear_arith)
                requires
                    0 <= yi <= count_y - 1,
                    pitch_y >= 1,
            ;
            assert((count_y - 1) * pitch_y < limit_y - origin_y);
        }
        let row_top = origin_y + yi * pitch_y;
        let y_index = start_tile + yi;
        let mut xi: i64 = 0;
        while xi < count_x
            invariant
                0 <= xi <= count_x,
                0 <= yi < count_y,
                row_top == origin_y + yi * pitch_y,
                row_top < limit_y,
                y_index == start_tile + yi,
                out@.len() == yi * count_x + xi,
                forall|t: int|
                    0 <= t < out@.len() ==> {
                        let tile = #[trigger] out@[t];
                        &&& tile.x_index == t % (count_x as int)
                        &&& tile.y_index == start_tile + t / (count_x as int)
                        &&& tile.left == origin_x + (t % (count_x as int)) * pitch_x
                        &&& tile.top == origin_y + (t / (count_x as int)) * pitch_y
                        &&& tile.right == tile.left + width
                        &&& tile.bottom == tile.top + height
                        &&& tile.left < limit_x
                        &&& tile.top < limit_y
                        &&& tile.tex == spec_tex(*def, *sp, tile.x_index as int, tile.y_index as int)
                    },
            decreases count_x - xi,
        {
            proof {
                assert(0 <= xi * pitch_x <= (count_x - 1) * pitch_x) by (nonlinear_arith)
                    requires
                        0 <= xi <= count_x - 1,
                        pitch_x >= 1,
                ;
                assert((count_x - 1) * pitch_x < limit_x - origin_x);
            }
            let left = origin_x + xi * pitch_x;
            let swap_x = matches!(def.repeat_x, BackgroundRepeat::Mirror) && xi % 2 == 1;
            let swap_y = matches!(def.repeat_y, BackgroundRepeat::Mirror) && y_index % 2 == 1;
            let ix1 = sp.tex_left + 1;
            let ix2 = sp.tex_left + sp.tex_width - 1;
            let iy1 = sp.tex_top + 1;
            let iy2 = sp.tex_top + sp.tex_height - 1;
            let tex = TexRect {
                x1: if swap_x {
                    ix2
                } else {
                    ix1
                },
                x2: if swap_x {
                    ix1
                } else {
                    ix2
                },
                y1: if swap_y {
                    iy2
                } else {
                    iy1
                },
                y2: if swap_y {
                    iy1
                } else {
                    iy2
                },
            };
            let tile = Tile {
                left,
                top: row_top,
                right: left + width,
                bottom: row_top + height,
                tex,
                x_index: xi,
                y_index,
            };
            let ghost q = out@.len() as int;
            out.push(tile);
            proof {
                assert(q % (count_x as int) == xi as int && q / (count_x as int) == yi as int)
                    by (nonlinear_arith)
                    requires
                        0 <= xi < count_x,
                        0 <= yi,
                        q == yi * count_x + xi,
                ;
                assert(tex == spec_tex(*def, *sp, xi as int, y_index as int));
                assert(forall|t: int| 0 <= t < q ==> out@[t] == out@.subrange(0, q)[t]);
            }
            xi = xi + 1;
        }
        proof {
            assert((yi + 1) * count_x == yi * count_x + count_x) by (nonlinear_arith);
        }
        yi = yi + 1;
    }
    out
}

/// One layer's contribution to a frame: its z-order slot, its tiles, and
/// the paint parameters the quad allocator applies to each of them.
pub struct LayerRender {
    pub z_index: i8,
    pub tiles: Vec<Tile>,
    pub opacity_permille: u32,
    pub hsb: crate::color::HsbTransform,
}

/// Layer `k` contributes to the frame: its sprite is ready and its
/// geometry yields at least one tile.
pub open spec fn contributes(
    layers: Seq<LoadedBackgroundLayer>,
    sprites: Seq<Option<SpriteInfo>>,
    dims: Dimensions,
    metrics: RenderMetrics,
    top: int,
    k: int,
) -> bool {
    sprites[k] matches Some(sp) && spec_count_y(layers[k].def, sp, dims, metrics, top)
        * spec_count_x(layers[k].def, sp, dims, metrics) > 0
}

/// How many of the first `k` layers contribute.
pub open spec fn contributing_upto(
    layers: Seq<LoadedBackgroundLayer>,
    sprites: Seq<Option<SpriteInfo>>,
    dims: Dimensions,
    metrics: RenderMetrics,
    top: int,
    k: int,
) -> int
    decreases k,
{
    if k <= 0 {
        0
    } else {
        contributing_upto(layers, sprites, dims, metrics, top, k - 1) + (if contributes(
            layers,
            sprites,
            dims,
            metrics,
            top,
            k - 1,
        ) {
            1int
        } else {
            0int
        })
    }
}

pub proof fn lemma_contributing_upto_mono(
    layers: Seq<LoadedBackgroundLayer>,
    sprites: Seq<Option<SpriteInfo>>,
    dims: Dimensions,
    metrics: RenderMetrics,
    top: int,
    a: int,
    b: int,
)
    requires
        0 <= a <= b,
    ensures
        0 <= contributing_upto(layers, sprites, dims, metrics, top, a) <= contributing_upto(
            layers,
            sprites,
            dims,
            metrics,
            top,
            b,
        ),
    decreases b,
{
    if b > 0 {
        if a == b {
            lemma_contributing_upto_mono(layers, sprites, dims, metrics, top, a - 1, b - 1);
        } else {
            lemma_contributing_upto_mono(layers, sprites, dims, metrics, top, a, b - 1);
        }
    }
}

/// What the output entry of a contributing layer holds: exactly that
/// layer's tiles (per `tiles_match`) and its paint parameters.
pub open spec fn entry_matches_layer(
    entry: LayerRender,
    layer: LoadedBackgroundLayer,
    sp: SpriteInfo,
    dims: Dimensions,
    metrics: RenderMetrics,
    top: int,
) -> bool {
    &&& tiles_match(layer.def, sp, dims, metrics, top, entry.tiles@)
    &&& entry.tiles@.len() > 0
    &&& entry.opacity_permille == layer.def.opacity_permille
    &&& entry.hsb == layer.def.hsb
}

/// Composites the whole resolved layer list for one frame: in list order,
/// each layer whose sprite is ready and whose geometry yields tiles
/// contributes one output entry with exactly its tiles and paint
/// parameters, taking the next z slot from -127 up (saturating); a layer
/// whose sprite is still loading (`None`), or whose geometry yields no
/// tile, contributes nothing and consumes no z slot. The flag says whether
/// any layer contributed.
#[verifier::loop_isolation(false)]
#[verifier::rlimit(100)]
pub fn render_backgrounds(
    layers: &Vec<LoadedBackgroundLayer>,
    sprites: &Vec<Option<SpriteInfo>>,
    dims: &Dimensions,
    metrics: &RenderMetrics,
    top: i64,
) -> (r: (Vec<LayerRender>, bool))
    requires
        sprites@.len() == layers@.len(),
        forall|k: int|
            0 <= k < layers@.len() ==> ((#[trigger] sprites@[k]) matches Some(sp) ==> geometry_wf(
                layers@[k].def,
                sp,
                *dims,
                *metrics,
                top as int,
            )),
    ensures
        r.0@.len() == contributing_upto(
            layers@,
            sprites@,
            *dims,
            *metrics,
            top as int,
            layers@.len() as int,
        ),
        r.1 == (r.0@.len() > 0),
        // each contributing layer's entry, at its position in list order
        forall|k: int|
            0 <= k < layers@.len() && #[trigger] contributes(
                layers@,
                sprites@,
                *dims,
                *metrics,
                top as int,
                k,
            ) ==> {
                let t = contributing_upto(layers@, sprites@, *dims, *metrics, top as int, k);
                0 <= t < r.0@.len() && entry_matches_layer(
                    r.0@[t],
                    layers@[k],
                    sprites@[k].unwrap(),
                    *dims,
                    *metrics,
                    top as int,
                )
            },
        forall|t: int|
            0 <= t < r.0@.len() ==> (#[trigger] r.0@[t]).z_index as int == (if -127 + t <= 127 {
                -127 + t
            } else {
                127int
            }) && r.0@[t].tiles@.len() > 0,
{
    let mut out: Vec<LayerRender> = Vec::new();
    let mut z: i8 = -127;
    let n = layers.len();
    let mut k: usize = 0;
    while k < n
        invariant
            n == layers@.len(),
            k <= n,
            out@.len() == contributing_upto(layers@, sprites@, *dims, *metrics, top as int, k as int),
            z as int == if -127 + out@.len() <= 127 {
                -127 + out@.len()
            } else {
                127int
            },
            forall|j: int|
                0 <= j < k && #[trigger] contributes(
                    layers@,
                    sprites@,
                    *dims,
                    *metrics,
                    top as int,
                    j,
                ) ==> {
                    let t = contributing_upto(layers@, sprites@, *dims, *metrics, top as int, j);
                    0 <= t < out@.len() && entry_matches_layer(
                        out@[t],
                        layers@[j],
                        sprites@[j].unwrap(),
                        *dims,
                        *metrics,
                        top as int,
                    )
                },
            forall|t: int|
                0 <= t < out@.len() ==> (#[trigger] out@[t]).z_index as int == (if -127 + t
                    <= 127 {
                    -127 + t
                } else {
                    127int
                }) && out@[t].tiles@.len() > 0,
        decreases n - k,
    {
        proof {
            lemma_contributing_upto_mono(layers@, sprites@, *dims, *metrics, top as int, 0, k as int);
        }
        match &sprites[k] {
            Option::Some(sp) => {
                let tiles = render_background(&layers[k].def, sp, dims, metrics, top);
                if tiles.len() > 0 {
                    proof {
                        assert(contributes(layers@, sprites@, *dims, *metrics, top as int, k as int));
                    }
                    let ghost prev = out@;
                    out.push(
                        LayerRender {
                            z_index: z,
                            tiles,
                            opacity_permille: layers[k].def.opacity_permille,
                            hsb: layers[k].def.hsb,
                        },
                    );
                    proof {
                        assert(forall|t: int| 0 <= t < prev.len() ==> out@[t] == prev[t]);
                    }
                    if z < 127 {
                        z = z + 1;
                    }
                } else {
                    proof {
                        assert(spec_count_y(layers@[k as int].def, *sp, *dims, *metrics, top as int)
                            * spec_count_x(layers@[k as int].def, *sp, *dims, *metrics) == 0);
                        assert(!contributes(layers@, sprites@, *dims, *metrics, top as int, k as int));
                    }
                }
            },
            Option::None => {
                proof {
                    assert(!contributes(layers@, sprites@, *dims, *metrics, top as int, k as int));
                }
            },
        }
        k = k + 1;
    }
    let emitted = out.len() > 0;
    (out, emitted)
}

} // verus!
