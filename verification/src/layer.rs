use vstd::prelude::*;

use crate::color::{HsbTransform, RgbaColor};
use crate::gradient::GradientSpec;

verus! {

/// A configured length: device pixels, typographic points, a percentage of
/// the axis's pixel extent, or terminal cell widths.
#[derive(Clone, Copy, PartialEq, Eq, Structural, Debug)]
pub enum Dimension {
    Pixels(u32),
    Points(u32),
    Percent(u32),
    Cells(u32),
}

/// A signed configured length, for the pixel offsets: the original
/// configuration admits negative offsets, which shift the layer left or
/// up.
#[derive(Clone, Copy, PartialEq, Eq, Structural, Debug)]
pub enum SignedDimension {
    Positive(Dimension),
    Negative(Dimension),
}

#[derive(Clone, Copy, PartialEq, Eq, Structural, Debug)]
pub enum BackgroundSize {
    Contain,
    Cover,
    Dimension(Dimension),
}

#[derive(Clone, Copy, PartialEq, Eq, Structural, Debug)]
pub enum BackgroundHorizontalAlignment {
    Left,
    Center,
    Right,
}

#[derive(Clone, Copy, PartialEq, Eq, Structural, Debug)]
pub enum BackgroundVerticalAlignment {
    Top,
    Middle,
    Bottom,
}

#[derive(Clone, Copy, PartialEq, Eq, Structural, Debug)]
pub enum BackgroundRepeat {
    NoRepeat,
    Repeat,
    Mirror,
}

/// Whether the layer stays fixed or follows the scrollback, weighted by a
/// per-mille scroll factor (1000 scrolls in lockstep with content).
#[derive(Clone, Copy, PartialEq, Eq, Structural, Debug)]
pub enum BackgroundAttachment {
    Fixed,
    Scroll { factor_permille: u32 },
}

impl BackgroundAttachment {
    pub open spec fn scroll_factor(self) -> Option<u32> {
        match self {
            BackgroundAttachment::Fixed => None,
            BackgroundAttachment::Scroll { factor_permille } => Some(factor_permille),
        }
    }
}

/// An image file source: its path and the playback-speed adjustment for
/// animated content, in per-mille.
pub struct FileSource {
    pub path: String,
    pub speed_permille: u32,
}

pub enum BackgroundSource {
    Gradient(GradientSpec),
    Color(RgbaColor),
    File(FileSource),
}

/// One configured background layer, immutable once supplied.
pub struct BackgroundLayer {
    pub source: BackgroundSource,
    pub width: BackgroundSize,
    pub height: BackgroundSize,
    pub horizontal_align: BackgroundHorizontalAlignment,
    pub vertical_align: BackgroundVerticalAlignment,
    pub horizontal_offset: Option<SignedDimension>,
    pub vertical_offset: Option<SignedDimension>,
    pub repeat_x: BackgroundRepeat,
    pub repeat_y: BackgroundRepeat,
    pub repeat_x_size: Option<Dimension>,
    pub repeat_y_size: Option<Dimension>,
    pub opacity_permille: u32,
    pub hsb: HsbTransform,
    pub attachment: BackgroundAttachment,
}

/// The window's pixel geometry.
#[derive(Clone, Copy, PartialEq, Eq, Structural, Debug)]
pub struct Dimensions {
    pub dpi: u32,
    pub pixel_width: u32,
    pub pixel_height: u32,
}

/// Cell geometry of the terminal's font raster.
#[derive(Clone, Copy, PartialEq, Eq, Structural, Debug)]
pub struct RenderMetrics {
    pub cell_width: u32,
    pub cell_height: u32,
}

/// What a `Dimension` is evaluated against on one axis.
#[derive(Clone, Copy, PartialEq, Eq, Structural, Debug)]
pub struct DimensionContext {
    pub dpi: u32,
    pub pixel_max: u32,
    pub pixel_cell: u32,
}

impl DimensionContext {
    pub open spec fn horizontal(dims: Dimensions, metrics: RenderMetrics) -> DimensionContext {
        DimensionContext {
            dpi: dims.dpi,
            pixel_max: dims.pixel_width,
            pixel_cell: metrics.cell_width,
        }
    }

    pub open spec fn vertical(dims: Dimensions, metrics: RenderMetrics) -> DimensionContext {
        DimensionContext {
            dpi: dims.dpi,
            pixel_max: dims.pixel_height,
            pixel_cell: metrics.cell_height,
        }
    }

    pub fn make_horizontal(dims: &Dimensions, metrics: &RenderMetrics) -> (r: DimensionContext)
        ensures
            r == DimensionContext::horizontal(*dims, *metrics),
    {
        DimensionContext {
            dpi: dims.dpi,
            pixel_max: dims.pixel_width,
            pixel_cell: metrics.cell_width,
        }
    }

    pub fn make_vertical(dims: &Dimensions, metrics: &RenderMetrics) -> (r: DimensionContext)
        ensures
            r == DimensionContext::vertical(*dims, *metrics),
    {
        DimensionContext {
            dpi: dims.dpi,
            pixel_max: dims.pixel_height,
            pixel_cell: metrics.cell_height,
        }
    }
}

fn mul_div_u32(a: u32, b: u32, d: u32) -> (r: u64)
    requires
        d >= 1,
    ensures
        r == (a as int) * (b as int) / (d as int),
{
    proof {
        assert(0 <= (a as int) * (b as int) <= 0xffff_ffff * 0xffff_ffff) by (nonlinear_arith)
            requires
                0 <= a as int <= 0xffff_ffff,
                0 <= b as int <= 0xffff_ffff,
        ;
    }
    ((a as u64) * (b as u64)) / (d as u64)
}

/// The whole-pixel value of a dimension in a context: points scale by
/// dpi/72, percentages by the axis extent, cells by the cell size.
pub open spec fn eval_dimension(d: Dimension, ctx: DimensionContext) -> int {
    match d {
        Dimension::Pixels(n) => n as int,
        Dimension::Points(n) => (n as int) * (ctx.dpi as int) / 72,
        Dimension::Percent(n) => (n as int) * (ctx.pixel_max as int) / 100,
        Dimension::Cells(n) => (n as int) * (ctx.pixel_cell as int),
    }
}

pub fn evaluate_as_pixels(d: Dimension, ctx: &DimensionContext) -> (r: u64)
    ensures
        r == eval_dimension(d, *ctx),
{
    match d {
        Dimension::Pixels(n) => n as u64,
        Dimension::Points(n) => mul_div_u32(n, ctx.dpi, 72),
        Dimension::Percent(n) => mul_div_u32(n, ctx.pixel_max, 100),
        Dimension::Cells(n) => {
            proof {
                assert(0 <= (n as int) * (ctx.pixel_cell as int) <= 0xffff_ffff * 0xffff_ffff)
                    by (nonlinear_arith)
                    requires
                        0 <= n as int <= 0xffff_ffff,
                        0 <= ctx.pixel_cell as int <= 0xffff_ffff,
                ;
            }
            (n as u64) * (ctx.pixel_cell as u64)
        },
    }
}

impl BackgroundLayer {
    /// The gradient spec, if any, is well formed.
    pub open spec fn wf(&self) -> bool {
        match self.source {
            BackgroundSource::Gradient(g) => g.wf(),
            _ => true,
        }
    }

    /// Equality of sources up to string views, for relating copies.
    pub open spec fn source_eq(a: BackgroundSource, b: BackgroundSource) -> bool {
        match (a, b) {
            (BackgroundSource::Gradient(x), BackgroundSource::Gradient(y)) => x.key_eq(&y),
            (BackgroundSource::Color(x), BackgroundSource::Color(y)) => x == y,
            (BackgroundSource::File(x), BackgroundSource::File(y)) => x.path@ == y.path@
                && x.speed_permille == y.speed_permille,
            _ => false,
        }
    }

    /// Everything but the source, which `source_eq` relates separately.
    pub open spec fn placement_eq(&self, other: &BackgroundLayer) -> bool {
        &&& self.width == other.width && self.height == other.height
        &&& self.horizontal_align == other.horizontal_align && self.vertical_align
            == other.vertical_align
        &&& self.horizontal_offset == other.horizontal_offset && self.vertical_offset
            == other.vertical_offset
        &&& self.repeat_x == other.repeat_x && self.repeat_y == other.repeat_y
        &&& self.repeat_x_size == other.repeat_x_size && self.repeat_y_size == other.repeat_y_size
        &&& self.opacity_permille == other.opacity_permille && self.hsb == other.hsb
        &&& self.attachment == other.attachment
    }

    /// An owned copy whose source and placement equal this layer's.
    pub fn copy_def(&self) -> (r: BackgroundLayer)
        ensures
            BackgroundLayer::source_eq(r.source, self.source),
            r.placement_eq(self),
            r.wf() == self.wf(),
    {
        let source = match &self.source {
            BackgroundSource::Gradient(g) => BackgroundSource::Gradient(g.copy_key()),
            BackgroundSource::Color(c) => BackgroundSource::Color(*c),
            BackgroundSource::File(f) => BackgroundSource::File(
                FileSource { path: f.path.clone(), speed_permille: f.speed_permille },
            ),
        };
        BackgroundLayer {
            source,
            width: self.width,
            height: self.height,
            horizontal_align: self.horizontal_align,
            vertical_align: self.vertical_align,
            horizontal_offset: self.horizontal_offset,
            vertical_offset: self.vertical_offset,
            repeat_x: self.repeat_x,
            repeat_y: self.repeat_y,
            repeat_x_size: self.repeat_x_size,
            repeat_y_size: self.repeat_y_size,
            opacity_permille: self.opacity_permille,
            hsb: self.hsb,
            attachment: self.attachment,
        }
    }
}

} // verus!
