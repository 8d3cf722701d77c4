use vstd::prelude::*;

use crate::cache::{fresh_at, has_fresh, has_keyed, has_match, holds_encoded, holds_gradient,
    is_first_keyed, GradientCache, ImageEntry, ImageFileCache};
use crate::color::RgbaColor;
use crate::errors::BackgroundError;
use crate::gradient::GradientSpec;
use crate::handle::{make_handle, HandleIds, ImageContent, ImageHandle, PixelBuffer};
use crate::layer::{BackgroundLayer, BackgroundSize, BackgroundSource, DimensionContext,
    Dimensions, RenderMetrics};

verus! {

/// A resolved layer: the shared pixel-buffer handle and a copy of the
/// definition that produced it.
pub struct LoadedBackgroundLayer {
    pub source: ImageHandle,
    pub def: BackgroundLayer,
}

/// The explicit pixel size of a sizing mode, capped at the largest buffer
/// this library rasterizes; `None` for the scaling modes, which gradient
/// and color sources do not support.
pub open spec fn dim_size(size: BackgroundSize, ctx: DimensionContext) -> Option<int> {
    match size {
        BackgroundSize::Dimension(d) => {
            let v = crate::layer::eval_dimension(d, ctx);
            Some(
                if v > 65535 {
                    65535int
                } else {
                    v
                },
            )
        },
        _ => None,
    }
}

/// The gradient rasterization width a layer asks for: its explicit
/// horizontal dimension, squared down to the smaller axis when radial.
pub open spec fn gradient_target_w(layer: BackgroundLayer, dims: Dimensions, metrics: RenderMetrics) -> int {
    let w0 = dim_size(layer.width, DimensionContext::horizontal(dims, metrics)).unwrap();
    let h0 = dim_size(layer.height, DimensionContext::vertical(dims, metrics)).unwrap();
    let radial = layer.source matches BackgroundSource::Gradient(g) && (g.orientation
        matches crate::gradient::GradientOrientation::Radial { .. });
    if radial && h0 < w0 {
        h0
    } else {
        w0
    }
}

pub open spec fn gradient_target_h(layer: BackgroundLayer, dims: Dimensions, metrics: RenderMetrics) -> int {
    let w0 = dim_size(layer.width, DimensionContext::horizontal(dims, metrics)).unwrap();
    let h0 = dim_size(layer.height, DimensionContext::vertical(dims, metrics)).unwrap();
    let radial = layer.source matches BackgroundSource::Gradient(g) && (g.orientation
        matches crate::gradient::GradientOrientation::Radial { .. });
    if radial && w0 < h0 {
        w0
    } else {
        h0
    }
}

/// Evaluates an explicit dimension, or reports the unsupported mode.
fn explicit_size(size: BackgroundSize, ctx: &DimensionContext) -> (r: Result<u32, BackgroundError>)
    ensures
        r is Ok <==> dim_size(size, *ctx) is Some,
        r matches Ok(v) ==> Some(v as int) == dim_size(size, *ctx) && v <= 65535,
        r matches Err(e) ==> e == BackgroundError::SpecificationUnsupported,
{
    match size {
        BackgroundSize::Dimension(d) => {
            let v = crate::layer::evaluate_as_pixels(d, ctx);
            if v > 65535 {
                Ok(65535)
            } else {
                Ok(v as u32)
            }
        },
        _ => Err(BackgroundError::SpecificationUnsupported),
    }
}

/// The handle carries a uniform square of the given color.
pub open spec fn holds_color(hd: ImageHandle, c: RgbaColor, size: int) -> bool {
    &&& hd.wf()
    &&& *hd.content matches ImageContent::Frame(pb) && pb.width == size && pb.height == size
        && pb.wf() && forall|p: int| 0 <= p < pb.pixels@.len() ==> pb.pixels@[p] == c
}

/// A uniform square buffer of side `size`, every pixel `c`.
fn solid_buffer(c: RgbaColor, size: u32) -> (pb: PixelBuffer)
    requires
        size <= 65535,
    ensures
        pb.width == size,
        pb.height == size,
        pb.wf(),
        forall|p: int| 0 <= p < pb.pixels@.len() ==> pb.pixels@[p] == c,
{
    proof {
        assert(0 <= (size as int) * (size as int) <= 65535 * 65535) by (nonlinear_arith)
            requires
                0 <= size as int <= 65535,
        ;
    }
    let n = (size as usize) * (size as usize);
    let pixels: Vec<RgbaColor> = vec![c; n];
    PixelBuffer { width: size, height: size, pixels }
}

/// The source is a file request for path `p` (at any speed).
pub open spec fn def_names_path(src: BackgroundSource, p: Seq<char>) -> bool {
    src matches BackgroundSource::File(f) && f.path@ == p
}

/// `a` and `e` name the same file at the same playback speed.
pub open spec fn file_matches(src: BackgroundSource, e: ImageEntry) -> bool {
    src matches BackgroundSource::File(f) && f.path@ == e.path@ && f.speed_permille
        == e.speed_permille
}

/// The layer's request cannot stale entry `e`: either it is not a file
/// request for `e`'s path, or it asks for exactly what `e` memoizes.
pub open spec fn does_not_stale(src: BackgroundSource, modified: Option<u64>, e: ImageEntry) -> bool {
    match src {
        BackgroundSource::File(f) => f.path@ == e.path@ ==> (modified == Some(e.modified)
            && f.speed_permille == e.speed_permille),
        _ => true,
    }
}

/// The definition asks the gradient cache for exactly this entry's key:
/// it is a gradient layer whose (radial-squared) target size and spec
/// match the entry.
pub open spec fn gradient_requests(def: BackgroundLayer, e: crate::cache::GradientEntry, dims: Dimensions, metrics: RenderMetrics) -> bool {
    def.source matches BackgroundSource::Gradient(g) && e.matches(
        g,
        gradient_target_w(def, dims, metrics) as u32,
        gradient_target_h(def, dims, metrics) as u32,
    )
}

/// What a resolved layer's handle holds, by its definition's source: a
/// rasterized gradient frame at the target dimensions, a uniform color
/// square of the smaller explicit dimension, or encoded file bytes at the
/// configured playback speed.
pub open spec fn content_for(def: BackgroundLayer, hd: ImageHandle, dims: Dimensions, metrics: RenderMetrics) -> bool {
    match def.source {
        BackgroundSource::Gradient(g) => holds_gradient(
            hd,
            g,
            gradient_target_w(def, dims, metrics) as u32,
            gradient_target_h(def, dims, metrics) as u32,
        ),
        BackgroundSource::Color(c) => {
            let w = dim_size(def.width, DimensionContext::horizontal(dims, metrics)).unwrap();
            let h = dim_size(def.height, DimensionContext::vertical(dims, metrics)).unwrap();
            holds_color(
                hd,
                c,
                if w < h {
                    w
                } else {
                    h
                },
            )
        },
        BackgroundSource::File(f) => hd.wf() && ((*hd.content) matches ImageContent::Encoded {
            speed_permille: s,
            ..
        } && s == f.speed_permille),
    }
}

/// The gradient-cache interaction of a gradient layer, at fixed target
/// dimensions.
fn resolve_gradient(
    g: &GradientSpec,
    width: u32,
    height: u32,
    gradients: &mut GradientCache,
    ids: &mut HandleIds,
    rng: &mut fastrand::Rng,
) -> (r: Result<ImageHandle, BackgroundError>)
    requires
        g.wf(),
        width <= 65535,
        height <= 65535,
        old(gradients).wf(),
        old(ids).next < u64::MAX,
    ensures
        final(gradients).wf(),
        final(ids).next >= old(ids).next,
        final(ids).next <= old(ids).next + 1,
        r is Ok <==> (has_match(old(gradients).entries@, *g, width, height) || g.stops_valid()),
        r matches Ok(hd) ==> holds_gradient(hd, *g, width, height) && hd.wf(),
        r matches Err(e) ==> e == BackgroundError::BuildFailure && final(gradients).entries@
            == old(gradients).entries@ && final(ids).next == old(ids).next,
        // slot stability and mark tracking, as the cache promises them
        final(gradients).entries@.len() >= old(gradients).entries@.len(),
        forall|j: int|
            0 <= j < old(gradients).entries@.len() ==> {
                let a = final(gradients).entries@[j];
                let b = #[trigger] old(gradients).entries@[j];
                a.key == b.key && a.width == b.width && a.height == b.height && a.handle
                    == b.handle
            },
        forall|j: int|
            0 <= j < old(gradients).entries@.len() && !(#[trigger] old(gradients).entries@[j]).marked
                ==> !final(gradients).entries@[j].marked,
        forall|j: int|
            0 <= j < final(gradients).entries@.len() && !(
            #[trigger] final(gradients).entries@[j]).marked ==> (j < old(
                gradients,
            ).entries@.len() && !old(gradients).entries@[j].marked)
                || final(gradients).entries@[j].matches(*g, width, height),
        // matches only grow, and any new match is for a valid-stops key
        forall|g2: GradientSpec, w2: u32, h2: u32|
            has_match(old(gradients).entries@, g2, w2, h2) ==> #[trigger] has_match(
                final(gradients).entries@,
                g2,
                w2,
                h2,
            ),
        forall|g2: GradientSpec, w2: u32, h2: u32|
            #[trigger] has_match(final(gradients).entries@, g2, w2, h2) ==> has_match(
                old(gradients).entries@,
                g2,
                w2,
                h2,
            ) || g2.stops_valid(),
{
    match gradients.load(ids, g, width, height, rng) {
        Ok(hd) => Ok(hd),
        Err(e) => Err(e),
    }
}

/// The image-cache interaction of a file layer.
#[verifier::rlimit(100)]
fn resolve_file(
    f_path: &String,
    f_speed: u32,
    images: &mut ImageFileCache,
    ids: &mut HandleIds,
    modified: Option<u64>,
    bytes: Option<Vec<u8>>,
) -> (r: Result<ImageHandle, BackgroundError>)
    requires
        old(images).wf(),
        old(ids).next < u64::MAX,
    ensures
        final(images).wf(),
        final(ids).next >= old(ids).next,
        final(ids).next <= old(ids).next + 1,
        r is Ok <==> modified is Some && (has_fresh(
            old(images).entries@,
            f_path@,
            modified.unwrap(),
            f_speed,
        ) || bytes is Some),
        r matches Err(e) ==> e == BackgroundError::IOFailure && final(images).entries@ == old(
            images,
        ).entries@ && final(ids).next == old(ids).next,
        r matches Ok(hd) ==> hd.wf() && ((*hd.content) matches ImageContent::Encoded {
            speed_permille: s,
            ..
        } && s == f_speed),
        // loading never marks: an unmarked slot stays unmarked, and any
        // newly unmarked slot names this call's own file
        forall|j: int|
            0 <= j < old(images).entries@.len() && !(#[trigger] old(images).entries@[j]).marked
                ==> !final(images).entries@[j].marked,
        forall|j: int|
            0 <= j < final(images).entries@.len() && !(#[trigger] final(images).entries@[j]).marked
                ==> (j < old(images).entries@.len() && !old(images).entries@[j].marked)
                || final(images).entries@[j].path@ == f_path@,
        // a miss wraps exactly the supplied bytes at the requested speed
        modified matches Some(m) ==> bytes matches Some(b) ==> !has_fresh(
            old(images).entries@,
            f_path@,
            m,
            f_speed,
        ) ==> (r matches Ok(hd) && holds_encoded(hd, b@, f_speed) && hd.id == old(ids).next),
        // a fresh hit preserves handle identity and only clears the flag
        forall|i: int|
            modified matches Some(m) && 0 <= i < old(images).entries@.len() && (
            #[trigger] old(images).entries@[i]).fresh_for(f_path@, m, f_speed) ==> (r matches Ok(
                hd,
            ) && hd == old(images).entries@[i].handle && final(images).entries@ == old(
                images,
            ).entries@.update(i, crate::cache::unmark1_i(old(images).entries@[i]))),
        // entries this request does not re-key keep place, key and handle
        forall|i: int|
            0 <= i < old(images).entries@.len() && ((#[trigger] old(images).entries@[i]).path@
                == f_path@ ==> (modified == Some(old(images).entries@[i].modified) && f_speed == old(
                images,
            ).entries@[i].speed_permille)) ==> final(images).entries@.len() >= old(
                images,
            ).entries@.len() && {
                let a = final(images).entries@[i];
                let b = old(images).entries@[i];
                a.path@ == b.path@ && a.modified == b.modified && a.speed_permille
                    == b.speed_permille && a.handle == b.handle
            },
        // slot stability, as the cache promises it
        final(images).entries@.len() >= old(images).entries@.len(),
        forall|j: int|
            0 <= j < old(images).entries@.len() ==> (#[trigger] final(images).entries@[j]).path@
                == old(images).entries@[j].path@,
        forall|j: int|
            0 <= j < old(images).entries@.len() ==> ({
                let a = final(images).entries@[j];
                let b = #[trigger] old(images).entries@[j];
                (a.modified == b.modified && a.speed_permille == b.speed_permille && a.handle
                    == b.handle) || (bytes is Some && b.path@ == f_path@)
            }),
        forall|j: int|
            old(images).entries@.len() <= j < final(images).entries@.len() ==> ((
            #[trigger] final(images).entries@[j]).path@ == f_path@ && bytes is Some),
{
    let source = match images.load(ids, f_path, f_speed, modified, bytes) {
        Ok(hd) => hd,
        Err(e) => {
            return Err(e);
        },
    };
    proof {
        let pre = old(images).entries@;
        let post = images.entries@;
        let m = modified.unwrap();
        assert forall|i: int|
            0 <= i < pre.len() && ((#[trigger] pre[i]).path@ == f_path@ ==> (modified == Some(
                pre[i].modified,
            ) && f_speed == pre[i].speed_permille)) implies post.len() >= pre.len() && {
            let a = post[i];
            let b = pre[i];
            a.path@ == b.path@ && a.modified == b.modified && a.speed_permille == b.speed_permille
                && a.handle == b.handle
        } by {
            if has_fresh(pre, f_path@, m, f_speed) {
                let j = choose|j: int| fresh_at(pre, f_path@, m, f_speed, j);
                assert(fresh_at(pre, f_path@, m, f_speed, j));
                assert(post == pre.update(j, crate::cache::unmark1_i(pre[j])));
            } else if has_keyed(pre, f_path@) {
                let j = choose|j: int| is_first_keyed(pre, f_path@, j);
                assert(is_first_keyed(pre, f_path@, j));
                if i == j {
                    assert(pre[i].keyed(f_path@));
                    assert(fresh_at(pre, f_path@, m, f_speed, i));
                    assert(false);
                }
            }
        }
    }
    Ok(source)
}

/// Resolves one layer definition to a shared pixel-buffer handle:
/// gradients and colors are rasterized at their explicitly configured
/// dimensions (through the gradient cache for gradients), files are served
/// from the image cache, validated by `modified` and re-read from `bytes`.
/// A radial gradient is first squared to the smaller dimension. An
/// explicit dimension above 65535 is clamped to that largest rasterizable
/// size; `dim_size` states the clamp, so callers see the size they will
/// get.
#[verifier::rlimit(100)]
pub fn load_background_layer(
    layer: &BackgroundLayer,
    dimensions: &Dimensions,
    render_metrics: &RenderMetrics,
    gradients: &mut GradientCache,
    images: &mut ImageFileCache,
    ids: &mut HandleIds,
    rng: &mut fastrand::Rng,
    modified: Option<u64>,
    bytes: Option<Vec<u8>>,
) -> (r: Result<LoadedBackgroundLayer, BackgroundError>)
    requires
        layer.wf(),
        old(gradients).wf(),
        old(images).wf(),
        old(ids).next < u64::MAX,
    ensures
        final(gradients).wf(),
        final(images).wf(),
        final(ids).next >= old(ids).next,
        final(ids).next <= old(ids).next + 1,
        r matches Ok(ll) ==> BackgroundLayer::source_eq(ll.def.source, layer.source)
            && ll.def.placement_eq(layer) && ll.source.wf(),
        // the handle of a resolved layer carries what its source describes
        r matches Ok(ll) ==> content_for(*layer, ll.source, *dimensions, *render_metrics),
        // gradient slots are stable; loading never marks one, and a newly
        // unmarked one is this layer's own target key
        final(gradients).entries@.len() >= old(gradients).entries@.len(),
        forall|j: int|
            0 <= j < old(gradients).entries@.len() ==> {
                let a = final(gradients).entries@[j];
                let b = #[trigger] old(gradients).entries@[j];
                a.key == b.key && a.width == b.width && a.height == b.height && a.handle
                    == b.handle
            },
        forall|j: int|
            0 <= j < old(gradients).entries@.len() && !(#[trigger] old(gradients).entries@[j]).marked
                ==> !final(gradients).entries@[j].marked,
        forall|j: int|
            0 <= j < final(gradients).entries@.len() && !(
            #[trigger] final(gradients).entries@[j]).marked ==> (j < old(
                gradients,
            ).entries@.len() && !old(gradients).entries@[j].marked) || gradient_requests(
                *layer,
                final(gradients).entries@[j],
                *dimensions,
                *render_metrics,
            ),
        // loading never marks an image entry, and a newly unmarked slot
        // names this layer's own file
        forall|j: int|
            0 <= j < old(images).entries@.len() && !(#[trigger] old(images).entries@[j]).marked
                ==> !final(images).entries@[j].marked,
        forall|j: int|
            0 <= j < final(images).entries@.len() && !(#[trigger] final(images).entries@[j]).marked
                ==> (j < old(images).entries@.len() && !old(images).entries@[j].marked) || (
                layer.source matches BackgroundSource::File(f) && final(images).entries@[j].path@
                    == f.path@),
        // a fresh file hit only clears that entry's flag
        forall|i: int|
            layer.source matches BackgroundSource::File(f) && modified matches Some(m) && 0 <= i
                < old(images).entries@.len() && (#[trigger] old(images).entries@[i]).fresh_for(
                f.path@,
                m,
                f.speed_permille,
            ) ==> final(images).entries@ == old(images).entries@.update(
                i,
                crate::cache::unmark1_i(old(images).entries@[i]),
            ),
        // a failing layer changes nothing: both caches and the id counter
        // are exactly as they were
        r is Err ==> final(gradients).entries@ == old(gradients).entries@
            && final(images).entries@ == old(images).entries@ && final(ids).next == old(ids).next,
        // sources leave the cache they do not use untouched
        !(layer.source matches BackgroundSource::Gradient(_)) ==> final(gradients).entries@ == old(
            gradients,
        ).entries@,
        !(layer.source matches BackgroundSource::File(_)) ==> final(images).entries@ == old(
            images,
        ).entries@,
        // gradients and colors demand explicit dimensions
        (layer.source matches BackgroundSource::Gradient(_) || layer.source
            matches BackgroundSource::Color(_)) && (dim_size(
            layer.width,
            DimensionContext::horizontal(*dimensions, *render_metrics),
        ) is None || dim_size(
            layer.height,
            DimensionContext::vertical(*dimensions, *render_metrics),
        ) is None) ==> r == Result::<LoadedBackgroundLayer, BackgroundError>::Err(
            BackgroundError::SpecificationUnsupported,
        ),
        // a color layer with explicit dimensions always resolves
        layer.source matches BackgroundSource::Color(_) ==> (r is Ok <==> dim_size(
            layer.width,
            DimensionContext::horizontal(*dimensions, *render_metrics),
        ) is Some && dim_size(
            layer.height,
            DimensionContext::vertical(*dimensions, *render_metrics),
        ) is Some),
        // a gradient layer with explicit dimensions resolves exactly when
        // the (radial-squared) key is memoized or its stops are valid CSS
        layer.source matches BackgroundSource::Gradient(g) ==> (r is Ok <==> dim_size(
            layer.width,
            DimensionContext::horizontal(*dimensions, *render_metrics),
        ) is Some && dim_size(
            layer.height,
            DimensionContext::vertical(*dimensions, *render_metrics),
        ) is Some && (g.stops_valid() || has_match(
            old(gradients).entries@,
            g,
            gradient_target_w(*layer, *dimensions, *render_metrics) as u32,
            gradient_target_h(*layer, *dimensions, *render_metrics) as u32,
        ))),
        // a resolved color layer is a uniform square of the smaller dimension
        layer.source matches BackgroundSource::Color(c) ==> (r matches Ok(ll) ==> {
            let w = dim_size(
                layer.width,
                DimensionContext::horizontal(*dimensions, *render_metrics),
            ).unwrap();
            let h = dim_size(
                layer.height,
                DimensionContext::vertical(*dimensions, *render_metrics),
            ).unwrap();
            holds_color(
                ll.source,
                c,
                if w < h {
                    w
                } else {
                    h
                },
            ) && ll.source.id == old(ids).next && final(ids).next == old(ids).next + 1
        }),
        // a resolved gradient layer holds a rasterization of its spec at
        // the configured dimensions (squared to the minimum when radial)
        layer.source matches BackgroundSource::Gradient(g) ==> (r matches Ok(ll) ==> holds_gradient(
            ll.source,
            g,
            gradient_target_w(*layer, *dimensions, *render_metrics) as u32,
            gradient_target_h(*layer, *dimensions, *render_metrics) as u32,
        )),
        // file layers: a fresh cache hit preserves handle identity
        forall|i: int|
            layer.source matches BackgroundSource::File(f) && modified matches Some(m) && 0 <= i
                < old(images).entries@.len() && (#[trigger] old(images).entries@[i]).fresh_for(
                f.path@,
                m,
                f.speed_permille,
            ) ==> (r matches Ok(ll) && ll.source == old(images).entries@[i].handle),
        // file layers succeed exactly when stat worked and either the cache
        // was fresh or bytes were supplied; their only error is an I/O one
        layer.source matches BackgroundSource::File(f) ==> (r is Ok <==> modified is Some && (
        has_fresh(old(images).entries@, f.path@, modified.unwrap(), f.speed_permille)
            || bytes is Some)),
        layer.source matches BackgroundSource::File(f) ==> (r matches Err(e) ==> e
            == BackgroundError::IOFailure),
        // a file miss wraps exactly the supplied bytes at the layer's speed
        layer.source matches BackgroundSource::File(f) ==> modified matches Some(m) ==> bytes
            matches Some(b) ==> !has_fresh(old(images).entries@, f.path@, m, f.speed_permille)
            ==> (r matches Ok(ll) && holds_encoded(ll.source, b@, f.speed_permille)),
        // pre-existing image entries that this request does not stale keep
        // their place, their key fields and their shared handle
        forall|i: int|
            0 <= i < old(images).entries@.len() && does_not_stale(
                layer.source,
                modified,
                #[trigger] old(images).entries@[i],
            ) ==> final(images).entries@.len() >= old(images).entries@.len() && {
                let a = final(images).entries@[i];
                let b = old(images).entries@[i];
                a.path@ == b.path@ && a.modified == b.modified && a.speed_permille
                    == b.speed_permille && a.handle == b.handle
            },
        // gradient matches only grow, and any new match has valid stops
        forall|g2: GradientSpec, w2: u32, h2: u32|
            has_match(old(gradients).entries@, g2, w2, h2) ==> #[trigger] has_match(
                final(gradients).entries@,
                g2,
                w2,
                h2,
            ),
        forall|g2: GradientSpec, w2: u32, h2: u32|
            #[trigger] has_match(final(gradients).entries@, g2, w2, h2) ==> has_match(
                old(gradients).entries@,
                g2,
                w2,
                h2,
            ) || g2.stops_valid(),
        // image slots are stable; replacement or growth consumes bytes and
        // names this layer's own file
        final(images).entries@.len() >= old(images).entries@.len(),
        forall|j: int|
            0 <= j < old(images).entries@.len() ==> (#[trigger] final(images).entries@[j]).path@
                == old(images).entries@[j].path@,
        forall|j: int|
            0 <= j < old(images).entries@.len() ==> ({
                let a = final(images).entries@[j];
                let b = #[trigger] old(images).entries@[j];
                (a.modified == b.modified && a.speed_permille == b.speed_permille && a.handle
                    == b.handle) || (bytes is Some && b.path@ == (match layer.source {
                    BackgroundSource::File(f) => f.path@,
                    _ => Seq::<char>::empty(),
                }))
            }),
        forall|j: int|
            old(images).entries@.len() <= j < final(images).entries@.len() ==> ((
            #[trigger] final(images).entries@[j]).path@ == (match layer.source {
                BackgroundSource::File(f) => f.path@,
                _ => Seq::<char>::empty(),
            }) && bytes is Some),
{
    let h_context = DimensionContext::make_horizontal(dimensions, render_metrics);
    let v_context = DimensionContext::make_vertical(dimensions, render_metrics);
    match &layer.source {
        BackgroundSource::Gradient(g) => {
            let mut width = match explicit_size(layer.width, &h_context) {
                Ok(v) => v,
                Err(e) => {
                    return Err(e);
                },
            };
            let mut height = match explicit_size(layer.height, &v_context) {
                Ok(v) => v,
                Err(e) => {
                    return Err(e);
                },
            };
            let radial = matches!(g.orientation, crate::gradient::GradientOrientation::Radial { .. });
            if radial {
                // a radial gradient is rasterized as a perfect square; the
                // renderer stretches it to fill the window
                if height < width {
                    width = height;
                }
                if width < height {
                    height = width;
                }
            }
            let source = match resolve_gradient(g, width, height, gradients, ids, rng) {
                Ok(hd) => hd,
                Err(e) => {
                    return Err(e);
                },
            };
            Ok(LoadedBackgroundLayer { source, def: layer.copy_def() })
        },
        BackgroundSource::Color(color) => {
            let width = match explicit_size(layer.width, &h_context) {
                Ok(v) => v,
                Err(e) => {
                    return Err(e);
                },
            };
            let height = match explicit_size(layer.height, &v_context) {
                Ok(v) => v,
                Err(e) => {
                    return Err(e);
                },
            };
            let size = if width < height {
                width
            } else {
                height
            };
            let pb = solid_buffer(*color, size);
            let source = make_handle(ids, ImageContent::Frame(pb));
            proof {
                assert(holds_color(source, *color, size as int));
            }
            Ok(LoadedBackgroundLayer { source, def: layer.copy_def() })
        },
        BackgroundSource::File(f) => {
            let source = match resolve_file(&f.path, f.speed_permille, images, ids, modified, bytes) {
                Ok(hd) => hd,
                Err(e) => {
                    return Err(e);
                },
            };
            Ok(LoadedBackgroundLayer { source, def: layer.copy_def() })
        },
    }
}

// ---------------------------------------------------------------------------
// The background set loader
// ---------------------------------------------------------------------------
/// What the caller observed about one file: its modification time (None if
/// it could not be stat'd) and, if it was read, its bytes.
pub struct FileData {
    pub path: String,
    pub modified: Option<u64>,
    pub bytes: Option<Vec<u8>>,
}

/// A snapshot of every file the layer definitions name, taken by the
/// caller before a load pass; the library itself performs no I/O.
pub struct FileSnapshot {
    pub files: Vec<FileData>,
}

pub open spec fn snap_modified(s: Seq<FileData>, p: Seq<char>) -> Option<u64>
    decreases s.len(),
{
    if s.len() == 0 {
        None
    } else if s[0].path@ == p {
        s[0].modified
    } else {
        snap_modified(s.skip(1), p)
    }
}

pub open spec fn snap_bytes(s: Seq<FileData>, p: Seq<char>) -> Option<Seq<u8>>
    decreases s.len(),
{
    if s.len() == 0 {
        None
    } else if s[0].path@ == p {
        match s[0].bytes {
            Some(b) => Some(b@),
            None => None,
        }
    } else {
        snap_bytes(s.skip(1), p)
    }
}

fn copy_bytes(b: &Vec<u8>) -> (r: Vec<u8>)
    ensures
        r@ == b@,
{
    let mut out: Vec<u8> = Vec::new();
    let mut i: usize = 0;
    while i < b.len()
        invariant
            i <= b@.len(),
            out@ == b@.take(i as int),
        decreases b@.len() - i,
    {
        out.push(b[i]);
        proof {
            assert(out@ =~= b@.take(i as int + 1));
        }
        i = i + 1;
    }
    proof {
        assert(out@ =~= b@);
    }
    out
}

/// The snapshot's record for a path: its modification time and a copy of
/// its bytes, if they were read.
fn lookup_file(snap: &FileSnapshot, path: &String) -> (r: (Option<u64>, Option<Vec<u8>>))
    ensures
        r.0 == snap_modified(snap.files@, path@),
        r.1 is Some <==> snap_bytes(snap.files@, path@) is Some,
        r.1 matches Some(b) ==> Some(b@) == snap_bytes(snap.files@, path@),
{
    let n = snap.files.len();
    let mut i: usize = 0;
    proof {
        assert(snap.files@.skip(0) =~= snap.files@);
    }
    while i < n
        invariant
            n == snap.files@.len(),
            i <= n,
            snap_modified(snap.files@, path@) == snap_modified(snap.files@.skip(i as int), path@),
            snap_bytes(snap.files@, path@) == snap_bytes(snap.files@.skip(i as int), path@),
        decreases n - i,
    {
        proof {
            assert(snap.files@.skip(i as int)[0] == snap.files@[i as int]);
            assert(snap.files@.skip(i as int).skip(1) =~= snap.files@.skip(i as int + 1));
        }
        let e = &snap.files[i];
        if e.path == *path {
            let bytes = match &e.bytes {
                Option::Some(b) => Option::Some(copy_bytes(b)),
                Option::None => Option::None,
            };
            return (e.modified, bytes);
        }
        i = i + 1;
    }
    (Option::None, Option::None)
}

/// Layer `src` cannot stale entry `e` under this snapshot: if it names
/// `e`'s file at all, it asks for exactly what `e` memoizes.
pub open spec fn def_does_not_stale(src: BackgroundSource, snap: Seq<FileData>, e: ImageEntry) -> bool {
    match src {
        BackgroundSource::File(f) => f.path@ == e.path@ ==> (snap_modified(snap, f.path@) == Some(
            e.modified,
        ) && f.speed_permille == e.speed_permille),
        _ => true,
    }
}

/// No layer of `defs` stales entry `e`: the file's metadata is unchanged
/// and every request for it uses the memoized playback speed.
pub open spec fn entry_undisturbed(e: ImageEntry, snap: Seq<FileData>, defs: Seq<BackgroundLayer>) -> bool {
    forall|k: int| 0 <= k < defs.len() ==> def_does_not_stale((#[trigger] defs[k]).source, snap, e)
}

/// Whether a definition will resolve in a load pass that starts from
/// these cache states and file snapshot. Exact: a gradient key memoized
/// mid-pass implies valid stops, and a file entry replaced mid-pass
/// implies its bytes were in the snapshot, so resolution never depends on
/// the order of the other definitions.
pub open spec fn def_resolves(
    def: BackgroundLayer,
    g0: Seq<crate::cache::GradientEntry>,
    i0: Seq<ImageEntry>,
    snap: Seq<FileData>,
    dims: Dimensions,
    metrics: RenderMetrics,
) -> bool {
    match def.source {
        BackgroundSource::Gradient(g) => dim_size(
            def.width,
            DimensionContext::horizontal(dims, metrics),
        ) is Some && dim_size(def.height, DimensionContext::vertical(dims, metrics)) is Some && (
        g.stops_valid() || has_match(
            g0,
            g,
            gradient_target_w(def, dims, metrics) as u32,
            gradient_target_h(def, dims, metrics) as u32,
        )),
        BackgroundSource::Color(_) => dim_size(
            def.width,
            DimensionContext::horizontal(dims, metrics),
        ) is Some && dim_size(def.height, DimensionContext::vertical(dims, metrics)) is Some,
        BackgroundSource::File(f) => snap_modified(snap, f.path@) is Some && (has_fresh(
            i0,
            f.path@,
            snap_modified(snap, f.path@).unwrap(),
            f.speed_permille,
        ) || snap_bytes(snap, f.path@) is Some),
    }
}

/// How many of the first `k` definitions resolve.
pub open spec fn resolved_upto(
    defs: Seq<BackgroundLayer>,
    g0: Seq<crate::cache::GradientEntry>,
    i0: Seq<ImageEntry>,
    snap: Seq<FileData>,
    dims: Dimensions,
    metrics: RenderMetrics,
    k: int,
) -> int
    decreases k,
{
    if k <= 0 {
        0
    } else {
        resolved_upto(defs, g0, i0, snap, dims, metrics, k - 1) + (if def_resolves(
            defs[k - 1],
            g0,
            i0,
            snap,
            dims,
            metrics,
        ) {
            1int
        } else {
            0int
        })
    }
}

pub proof fn lemma_resolved_upto_mono(
    defs: Seq<BackgroundLayer>,
    g0: Seq<crate::cache::GradientEntry>,
    i0: Seq<ImageEntry>,
    snap: Seq<FileData>,
    dims: Dimensions,
    metrics: RenderMetrics,
    a: int,
    b: int,
)
    requires
        0 <= a <= b,
    ensures
        0 <= resolved_upto(defs, g0, i0, snap, dims, metrics, a) <= resolved_upto(
            defs,
            g0,
            i0,
            snap,
            dims,
            metrics,
            b,
        ),
    decreases b,
{
    if b > 0 {
        if a == b {
            lemma_resolved_upto_mono(defs, g0, i0, snap, dims, metrics, a - 1, b - 1);
        } else {
            lemma_resolved_upto_mono(defs, g0, i0, snap, dims, metrics, a, b - 1);
        }
    }
}

/// Resolves each definition in order against the caller's file snapshot; a
/// layer that fails to resolve is dropped, never failing the pass. An
/// image entry that no definition stales keeps its place, its key fields
/// and its shared handle, and every resolved layer naming its file gets
/// exactly that handle back.
#[verifier::loop_isolation(false)]
#[verifier::rlimit(100)]
pub fn load_background_image(
    defs: &Vec<BackgroundLayer>,
    dimensions: &Dimensions,
    render_metrics: &RenderMetrics,
    gradients: &mut GradientCache,
    images: &mut ImageFileCache,
    ids: &mut HandleIds,
    rng: &mut fastrand::Rng,
    files: &FileSnapshot,
) -> (r: Vec<LoadedBackgroundLayer>)
    requires
        forall|k: int| 0 <= k < defs@.len() ==> (#[trigger] defs@[k]).wf(),
        old(gradients).wf(),
        old(images).wf(),
        old(ids).next + defs@.len() < u64::MAX,
    ensures
        final(gradients).wf(),
        final(images).wf(),
        final(ids).next >= old(ids).next,
        final(ids).next <= old(ids).next + defs@.len(),
        r@.len() <= defs@.len(),
        // undisturbed image entries keep place, key fields and handle
        forall|i: int|
            0 <= i < old(images).entries@.len() && entry_undisturbed(
                #[trigger] old(images).entries@[i],
                files.files@,
                defs@,
            ) ==> final(images).entries@.len() >= old(images).entries@.len() && {
                let a = final(images).entries@[i];
                let b = old(images).entries@[i];
                a.path@ == b.path@ && a.modified == b.modified && a.speed_permille
                    == b.speed_permille && a.handle == b.handle
            },
        // ... and every resolved layer naming such an entry's file carries
        // exactly its shared handle: identity survives the pass
        forall|i: int, k: int|
            0 <= i < old(images).entries@.len() && entry_undisturbed(
                old(images).entries@[i],
                files.files@,
                defs@,
            ) && 0 <= k < r@.len() && file_matches(
                (#[trigger] r@[k]).def.source,
                #[trigger] old(images).entries@[i],
            ) ==> r@[k].source == old(images).entries@[i].handle,
        // composition: one result, in definition order, per definition
        // that resolves; a failing definition is dropped, never fatal
        r@.len() == resolved_upto(
            defs@,
            old(gradients).entries@,
            old(images).entries@,
            files.files@,
            *dimensions,
            *render_metrics,
            defs@.len() as int,
        ),
        forall|k: int|
            0 <= k < defs@.len() && #[trigger] def_resolves(
                defs@[k],
                old(gradients).entries@,
                old(images).entries@,
                files.files@,
                *dimensions,
                *render_metrics,
            ) ==> {
                let t = resolved_upto(
                    defs@,
                    old(gradients).entries@,
                    old(images).entries@,
                    files.files@,
                    *dimensions,
                    *render_metrics,
                    k,
                );
                0 <= t < r@.len() && BackgroundLayer::source_eq(r@[t].def.source, defs@[k].source)
                    && r@[t].def.placement_eq(&defs@[k]) && content_for(
                    defs@[k],
                    r@[t].source,
                    *dimensions,
                    *render_metrics,
                )
            },
        // loading never marks an entry
        forall|j: int|
            0 <= j < old(images).entries@.len() && !(#[trigger] old(images).entries@[j]).marked
                ==> !final(images).entries@[j].marked,
        // any newly unmarked entry names some definition's file
        forall|j: int|
            0 <= j < final(images).entries@.len() && !(#[trigger] final(images).entries@[j]).marked
                ==> (j < old(images).entries@.len() && !old(images).entries@[j].marked)
                || exists|k: int|
                0 <= k < defs@.len() && def_names_path(
                    (#[trigger] defs@[k]).source,
                    final(images).entries@[j].path@,
                ),
        // an undisturbed entry that some definition requests ends the pass
        // re-marked fresh
        forall|i: int|
            0 <= i < old(images).entries@.len() && entry_undisturbed(
                #[trigger] old(images).entries@[i],
                files.files@,
                defs@,
            ) && (exists|k: int|
                0 <= k < defs@.len() && file_matches(
                    (#[trigger] defs@[k]).source,
                    old(images).entries@[i],
                )) ==> !final(images).entries@[i].marked,
        // the same mark tracking on the gradient cache: never marked, and
        // any newly unmarked entry is some definition's target key
        forall|j: int|
            0 <= j < old(gradients).entries@.len() && !(#[trigger] old(gradients).entries@[j]).marked
                ==> !final(gradients).entries@[j].marked,
        forall|j: int|
            0 <= j < final(gradients).entries@.len() && !(
            #[trigger] final(gradients).entries@[j]).marked ==> (j < old(
                gradients,
            ).entries@.len() && !old(gradients).entries@[j].marked) || exists|k: int|
                0 <= k < defs@.len() && gradient_requests(
                    #[trigger] defs@[k],
                    final(gradients).entries@[j],
                    *dimensions,
                    *render_metrics,
                ),
{
    let ghost pre_img = old(images).entries@;
    let ghost pre_grad = old(gradients).entries@;
    let ghost snap = files.files@;
    let mut out: Vec<LoadedBackgroundLayer> = Vec::new();
    let n = defs.len();
    let mut k: usize = 0;
    while k < n
        invariant
            n == defs@.len(),
            k <= n,
            out@.len() <= k,
            gradients.wf(),
            images.wf(),
            ids.next >= old(ids).next,
            ids.next <= old(ids).next + k,
            forall|i: int|
                0 <= i < pre_img.len() && entry_undisturbed(
                    #[trigger] pre_img[i],
                    files.files@,
                    defs@,
                ) ==> images.entries@.len() >= pre_img.len() && {
                    let a = images.entries@[i];
                    let b = pre_img[i];
                    a.path@ == b.path@ && a.modified == b.modified && a.speed_permille
                        == b.speed_permille && a.handle == b.handle
                },
            forall|i: int, t: int|
                0 <= i < pre_img.len() && entry_undisturbed(pre_img[i], files.files@, defs@) && 0
                    <= t < out@.len() && file_matches(
                    (#[trigger] out@[t]).def.source,
                    #[trigger] pre_img[i],
                ) ==> out@[t].source == pre_img[i].handle,
            out@.len() == resolved_upto(defs@, pre_grad, pre_img, snap, *dimensions, *render_metrics, k as int),
            forall|j: int|
                0 <= j < k && #[trigger] def_resolves(
                    defs@[j],
                    pre_grad,
                    pre_img,
                    snap,
                    *dimensions,
                    *render_metrics,
                ) ==> {
                    let t = resolved_upto(defs@, pre_grad, pre_img, snap, *dimensions, *render_metrics, j);
                    0 <= t < out@.len() && BackgroundLayer::source_eq(
                        out@[t].def.source,
                        defs@[j].source,
                    ) && out@[t].def.placement_eq(&defs@[j]) && content_for(
                        defs@[j],
                        out@[t].source,
                        *dimensions,
                        *render_metrics,
                    )
                },
            forall|j: int|
                0 <= j < pre_img.len() && !(#[trigger] pre_img[j]).marked
                    ==> !images.entries@[j].marked,
            forall|j: int|
                0 <= j < images.entries@.len() && !(#[trigger] images.entries@[j]).marked ==> (j
                    < pre_img.len() && !pre_img[j].marked) || exists|k2: int|
                    0 <= k2 < k && def_names_path(
                        (#[trigger] defs@[k2]).source,
                        images.entries@[j].path@,
                    ),
            forall|i: int|
                0 <= i < pre_img.len() && entry_undisturbed(#[trigger] pre_img[i], snap, defs@) && (
                exists|k2: int|
                    0 <= k2 < k && file_matches((#[trigger] defs@[k2]).source, pre_img[i]))
                    ==> !images.entries@[i].marked,
            gradients.entries@.len() >= pre_grad.len(),
            forall|j: int|
                0 <= j < pre_grad.len() ==> {
                    let a = gradients.entries@[j];
                    let b = #[trigger] pre_grad[j];
                    a.key == b.key && a.width == b.width && a.height == b.height && a.handle
                        == b.handle
                },
            forall|j: int|
                0 <= j < pre_grad.len() && !(#[trigger] pre_grad[j]).marked
                    ==> !gradients.entries@[j].marked,
            forall|j: int|
                0 <= j < gradients.entries@.len() && !(#[trigger] gradients.entries@[j]).marked
                    ==> (j < pre_grad.len() && !pre_grad[j].marked) || exists|k2: int|
                    0 <= k2 < k && gradient_requests(
                        #[trigger] defs@[k2],
                        gradients.entries@[j],
                        *dimensions,
                        *render_metrics,
                    ),
            forall|g2: GradientSpec, w2: u32, h2: u32|
                has_match(pre_grad, g2, w2, h2) ==> #[trigger] has_match(
                    gradients.entries@,
                    g2,
                    w2,
                    h2,
                ),
            forall|g2: GradientSpec, w2: u32, h2: u32|
                #[trigger] has_match(gradients.entries@, g2, w2, h2) ==> has_match(
                    pre_grad,
                    g2,
                    w2,
                    h2,
                ) || g2.stops_valid(),
            images.entries@.len() >= pre_img.len(),
            forall|j: int|
                0 <= j < pre_img.len() ==> (#[trigger] images.entries@[j]).path@ == pre_img[j].path@,
            forall|j: int|
                0 <= j < pre_img.len() ==> ({
                    let a = images.entries@[j];
                    let b = #[trigger] pre_img[j];
                    (a.modified == b.modified && a.speed_permille == b.speed_permille && a.handle
                        == b.handle) || snap_bytes(snap, b.path@) is Some
                }),
            forall|j: int|
                pre_img.len() <= j < images.entries@.len() ==> snap_bytes(
                    snap,
                    (#[trigger] images.entries@[j]).path@,
                ) is Some,
        decreases n - k,
    {
        let def = &defs[k];
        let (modified, bytes) = match &def.source {
            BackgroundSource::File(f) => lookup_file(files, &f.path),
            _ => (Option::None, Option::None),
        };
        let ghost mid_img = images.entries@;
        let ghost mid_grad = gradients.entries@;
        let res = load_background_layer(
            def,
            dimensions,
            render_metrics,
            gradients,
            images,
            ids,
            rng,
            modified,
            bytes,
        );
        proof {
            assert forall|i: int|
                0 <= i < pre_img.len() && entry_undisturbed(
                    #[trigger] pre_img[i],
                    files.files@,
                    defs@,
                ) implies images.entries@.len() >= pre_img.len() && {
                let a = images.entries@[i];
                let b = pre_img[i];
                a.path@ == b.path@ && a.modified == b.modified && a.speed_permille
                    == b.speed_permille && a.handle == b.handle
            } by {
                assert(def_does_not_stale(defs@[k as int].source, files.files@, pre_img[i]));
                assert(mid_img[i].path@ == pre_img[i].path@ && mid_img[i].modified
                    == pre_img[i].modified && mid_img[i].speed_permille
                    == pre_img[i].speed_permille && mid_img[i].handle == pre_img[i].handle);
                assert(does_not_stale(def.source, modified, mid_img[i]));
            }
            // gradient match evolution composes across this call
            assert forall|g2: GradientSpec, w2: u32, h2: u32|
                has_match(pre_grad, g2, w2, h2) implies #[trigger] has_match(
                gradients.entries@,
                g2,
                w2,
                h2,
            ) by {
                assert(has_match(mid_grad, g2, w2, h2));
            }
            assert forall|g2: GradientSpec, w2: u32, h2: u32|
                #[trigger] has_match(gradients.entries@, g2, w2, h2) implies has_match(
                pre_grad,
                g2,
                w2,
                h2,
            ) || g2.stops_valid() by {
                assert(has_match(mid_grad, g2, w2, h2) || g2.stops_valid());
            }
            // image slot invariants compose across this call
            assert forall|j: int| 0 <= j < pre_img.len() implies (
            #[trigger] images.entries@[j]).path@ == pre_img[j].path@ by {
                assert(mid_img[j].path@ == pre_img[j].path@);
            }
            assert forall|j: int| 0 <= j < pre_img.len() implies ({
                let a = images.entries@[j];
                let b = #[trigger] pre_img[j];
                (a.modified == b.modified && a.speed_permille == b.speed_permille && a.handle
                    == b.handle) || snap_bytes(snap, b.path@) is Some
            }) by {
                let a = images.entries@[j];
                let m = mid_img[j];
                if !(a.modified == m.modified && a.speed_permille == m.speed_permille && a.handle
                    == m.handle) {
                    // this call replaced slot j: its own file's bytes came
                    // from the snapshot, and the slot names that file
                    match def.source {
                        BackgroundSource::File(f) => {
                            assert(bytes is Some && m.path@ == f.path@);
                            assert(snap_bytes(snap, f.path@) is Some);
                            assert(pre_img[j].path@ == f.path@);
                        },
                        _ => {
                            assert(images.entries@ == mid_img);
                        },
                    }
                }
            }
            assert forall|j: int|
                pre_img.len() <= j < images.entries@.len() implies snap_bytes(
                snap,
                (#[trigger] images.entries@[j]).path@,
            ) is Some by {
                if j < mid_img.len() {
                    assert(images.entries@[j].path@ == mid_img[j].path@);
                } else {
                    match def.source {
                        BackgroundSource::File(f) => {
                            assert(images.entries@[j].path@ == f.path@ && bytes is Some);
                            assert(snap_bytes(snap, f.path@) is Some);
                        },
                        _ => {
                            assert(images.entries@ == mid_img);
                        },
                    }
                }
            }
            // this call succeeded exactly when the definition resolves
            // against the pass's initial state
            assert(res is Ok <==> def_resolves(
                defs@[k as int],
                pre_grad,
                pre_img,
                snap,
                *dimensions,
                *render_metrics,
            )) by {
                match def.source {
                    BackgroundSource::Gradient(g) => {
                        let w2 = gradient_target_w(defs@[k as int], *dimensions, *render_metrics)
                            as u32;
                        let h2 = gradient_target_h(defs@[k as int], *dimensions, *render_metrics)
                            as u32;
                        if has_match(pre_grad, g, w2, h2) {
                            assert(has_match(mid_grad, g, w2, h2));
                        }
                        if has_match(mid_grad, g, w2, h2) {
                            assert(has_match(pre_grad, g, w2, h2) || g.stops_valid());
                        }
                    },
                    BackgroundSource::Color(_) => {},
                    BackgroundSource::File(f) => {
                        let p = f.path@;
                        assert(modified == snap_modified(snap, p));
                        assert(bytes is Some <==> snap_bytes(snap, p) is Some);
                        if let Option::Some(m) = modified {
                            if has_fresh(pre_img, p, m, f.speed_permille) && snap_bytes(
                                snap,
                                p,
                            ) is None {
                                let i = choose|i: int| fresh_at(pre_img, p, m, f.speed_permille, i);
                                assert(fresh_at(pre_img, p, m, f.speed_permille, i));
                                assert(mid_img[i].path@ == pre_img[i].path@);
                                assert(fresh_at(mid_img, p, m, f.speed_permille, i));
                            }
                            if has_fresh(mid_img, p, m, f.speed_permille) && snap_bytes(
                                snap,
                                p,
                            ) is None {
                                let j = choose|j: int| fresh_at(mid_img, p, m, f.speed_permille, j);
                                assert(fresh_at(mid_img, p, m, f.speed_permille, j));
                                if j < pre_img.len() {
                                    assert(pre_img[j].path@ == mid_img[j].path@);
                                    assert(fresh_at(pre_img, p, m, f.speed_permille, j));
                                } else {
                                    assert(snap_bytes(snap, mid_img[j].path@) is Some);
                                    assert(false);
                                }
                            }
                        }
                    },
                }
            }
            assert(resolved_upto(defs@, pre_grad, pre_img, snap, *dimensions, *render_metrics, k as int + 1)
                == resolved_upto(defs@, pre_grad, pre_img, snap, *dimensions, *render_metrics, k as int)
                + (if def_resolves(defs@[k as int], pre_grad, pre_img, snap, *dimensions, *render_metrics) {
                1int
            } else {
                0int
            }));
        }
        match res {
            Ok(ll) => {
                let ghost prev_out = out@;
                out.push(ll);
                proof {
                    assert forall|i: int, t: int|
                        0 <= i < pre_img.len() && entry_undisturbed(
                            pre_img[i],
                            files.files@,
                            defs@,
                        ) && 0 <= t < out@.len() && file_matches(
                            (#[trigger] out@[t]).def.source,
                            #[trigger] pre_img[i],
                        ) implies out@[t].source == pre_img[i].handle by {
                        if t < prev_out.len() {
                            assert(out@[t] == prev_out[t]);
                        } else {
                            assert(out@[t] == ll);
                            assert(def_does_not_stale(
                                defs@[k as int].source,
                                files.files@,
                                pre_img[i],
                            ));
                            assert(mid_img[i].fresh_for(
                                pre_img[i].path@,
                                pre_img[i].modified,
                                pre_img[i].speed_permille,
                            ));
                        }
                    }
                    assert forall|j: int|
                        0 <= j < k as int + 1 && #[trigger] def_resolves(
                            defs@[j],
                            pre_grad,
                            pre_img,
                            snap,
                            *dimensions,
                            *render_metrics,
                        ) implies {
                        let t = resolved_upto(
                            defs@,
                            pre_grad,
                            pre_img,
                            snap,
                            *dimensions,
                            *render_metrics,
                            j,
                        );
                        0 <= t < out@.len() && BackgroundLayer::source_eq(
                            out@[t].def.source,
                            defs@[j].source,
                        ) && out@[t].def.placement_eq(&defs@[j])
                    } by {
                        let t = resolved_upto(
                            defs@,
                            pre_grad,
                            pre_img,
                            snap,
                            *dimensions,
                            *render_metrics,
                            j,
                        );
                        if j < k as int {
                            lemma_resolved_upto_mono(
                                defs@,
                                pre_grad,
                                pre_img,
                                snap,
                                *dimensions,
                                *render_metrics,
                                j + 1,
                                k as int,
                            );
                            assert(out@[t] == prev_out[t]);
                        } else {
                            assert(t == prev_out.len() as int);
                            assert(out@[t] == ll);
                        }
                    }
                }
            },
            Err(_) => {
                // a failing layer is dropped; the others still load
            },
        }
        k = k + 1;
    }
    out
}

/// How the reload's identity reuse picks a handle: either no previous
/// layer shares the handle's content hash (the fresh handle is kept), or
/// the handle is exactly the last previous layer's with that hash, as the
/// hash lookup keeps the last insertion per hash.
pub open spec fn reused_from_last(existing: Seq<LoadedBackgroundLayer>, source: ImageHandle) -> bool {
    ||| forall|e: int|
        0 <= e < existing.len() ==> (#[trigger] existing[e]).source.hash != source.hash
    ||| exists|e: int|
        0 <= e < existing.len() && (#[trigger] existing[e]).source.hash == source.hash && source
            == existing[e].source && (forall|e2: int|
            e < e2 < existing.len() ==> (#[trigger] existing[e2]).source.hash != source.hash)
}

/// Marking both caches changes no key or content field, so which
/// definitions resolve is unchanged.
pub proof fn lemma_def_resolves_marked(
    def: BackgroundLayer,
    g0: Seq<crate::cache::GradientEntry>,
    i0: Seq<ImageEntry>,
    snap: Seq<FileData>,
    dims: Dimensions,
    metrics: RenderMetrics,
)
    ensures
        def_resolves(
            def,
            crate::cache::mark_model_g(g0),
            crate::cache::mark_model_i(i0),
            snap,
            dims,
            metrics,
        ) == def_resolves(def, g0, i0, snap, dims, metrics),
{
    match def.source {
        BackgroundSource::Gradient(g) => {
            crate::cache::lemma_has_match_marked(
                g0,
                g,
                gradient_target_w(def, dims, metrics) as u32,
                gradient_target_h(def, dims, metrics) as u32,
            );
        },
        BackgroundSource::Color(_) => {},
        BackgroundSource::File(f) => {
            if let Option::Some(m) = snap_modified(snap, f.path@) {
                crate::cache::lemma_has_fresh_marked(i0, f.path@, m, f.speed_permille);
            }
        },
    }
}

pub proof fn lemma_resolved_upto_marked(
    defs: Seq<BackgroundLayer>,
    g0: Seq<crate::cache::GradientEntry>,
    i0: Seq<ImageEntry>,
    snap: Seq<FileData>,
    dims: Dimensions,
    metrics: RenderMetrics,
    k: int,
)
    ensures
        resolved_upto(
            defs,
            crate::cache::mark_model_g(g0),
            crate::cache::mark_model_i(i0),
            snap,
            dims,
            metrics,
            k,
        ) == resolved_upto(defs, g0, i0, snap, dims, metrics, k),
    decreases k,
{
    if k > 0 {
        lemma_resolved_upto_marked(defs, g0, i0, snap, dims, metrics, k - 1);
        lemma_def_resolves_marked(defs[k - 1], g0, i0, snap, dims, metrics);
    }
}

/// Re-resolves the whole layer list for a configuration reload: marks both
/// caches, loads, re-attaches by content identity any handle a previous
/// layer already held (so downstream animation state survives even a
/// recompute), then sweeps what no layer requested. A resolved layer whose
/// file is unchanged gets back either its cache entry's very handle or a
/// previous layer's handle with the same content identity.
#[verifier::loop_isolation(false)]
#[verifier::rlimit(100)]
pub fn reload_background_image(
    existing: &Vec<LoadedBackgroundLayer>,
    defs: &Vec<BackgroundLayer>,
    dimensions: &Dimensions,
    render_metrics: &RenderMetrics,
    gradients: &mut GradientCache,
    images: &mut ImageFileCache,
    ids: &mut HandleIds,
    rng: &mut fastrand::Rng,
    files: &FileSnapshot,
) -> (r: Vec<LoadedBackgroundLayer>)
    requires
        forall|k: int| 0 <= k < defs@.len() ==> (#[trigger] defs@[k]).wf(),
        old(gradients).wf(),
        old(images).wf(),
        old(ids).next + defs@.len() < u64::MAX,
    ensures
        final(gradients).wf(),
        final(images).wf(),
        r@.len() <= defs@.len(),
        // reload identity preservation: a layer whose file is unchanged
        // carries the previous shared handle onward, directly or through a
        // content-identical previous layer
        forall|i: int, k: int|
            0 <= i < old(images).entries@.len() && entry_undisturbed(
                old(images).entries@[i],
                files.files@,
                defs@,
            ) && 0 <= k < r@.len() && file_matches(
                (#[trigger] r@[k]).def.source,
                #[trigger] old(images).entries@[i],
            ) ==> (r@[k].source == old(images).entries@[i].handle || exists|t: int|
                0 <= t < existing@.len() && (#[trigger] existing@[t]).source.hash == old(
                    images,
                ).entries@[i].handle.hash && r@[k].source == existing@[t].source),
        // the pass behaves as mark, load, sweep: whatever survives in
        // either cache was requested (re-marked fresh) during it
        forall|i: int|
            0 <= i < final(images).entries@.len() ==> !(#[trigger] final(images).entries@[i]).marked,
        forall|i: int|
            0 <= i < final(gradients).entries@.len() ==> !(
            #[trigger] final(gradients).entries@[i]).marked,
        // composition: one result, in definition order, per definition
        // that resolves against the pre-reload state
        r@.len() == resolved_upto(
            defs@,
            old(gradients).entries@,
            old(images).entries@,
            files.files@,
            *dimensions,
            *render_metrics,
            defs@.len() as int,
        ),
        forall|k: int|
            0 <= k < defs@.len() && #[trigger] def_resolves(
                defs@[k],
                old(gradients).entries@,
                old(images).entries@,
                files.files@,
                *dimensions,
                *render_metrics,
            ) ==> {
                let t = resolved_upto(
                    defs@,
                    old(gradients).entries@,
                    old(images).entries@,
                    files.files@,
                    *dimensions,
                    *render_metrics,
                    k,
                );
                0 <= t < r@.len() && BackgroundLayer::source_eq(r@[t].def.source, defs@[k].source)
                    && r@[t].def.placement_eq(&defs@[k]) && (content_for(
                    defs@[k],
                    r@[t].source,
                    *dimensions,
                    *render_metrics,
                ) || (exists|h0: ImageHandle, e: int|
                    #[trigger] content_for(defs@[k], h0, *dimensions, *render_metrics)
                        && r@[t].source.hash == h0.hash && 0 <= e < existing@.len()
                        && r@[t].source == (#[trigger] existing@[e]).source))
            },
        // which handle identity reuse picks: the fresh one when no previous
        // layer shares its content hash, else the last such layer's
        forall|t: int| 0 <= t < r@.len() ==> reused_from_last(existing@, (#[trigger] r@[t]).source),
        // an image entry survives only if some definition names its file
        forall|j: int|
            0 <= j < final(images).entries@.len() ==> exists|k: int|
                0 <= k < defs@.len() && def_names_path(
                    (#[trigger] defs@[k]).source,
                    (#[trigger] final(images).entries@[j]).path@,
                ),
        // a gradient entry survives only if some definition requests its key
        forall|j: int|
            0 <= j < final(gradients).entries@.len() ==> exists|k: int|
                0 <= k < defs@.len() && gradient_requests(
                    #[trigger] defs@[k],
                    #[trigger] final(gradients).entries@[j],
                    *dimensions,
                    *render_metrics,
                ),
        // ... and an undisturbed entry that some definition requests does
        // survive, with its key fields and its shared handle intact
        forall|i: int|
            0 <= i < old(images).entries@.len() && entry_undisturbed(
                #[trigger] old(images).entries@[i],
                files.files@,
                defs@,
            ) && (exists|k: int|
                0 <= k < defs@.len() && file_matches(
                    (#[trigger] defs@[k]).source,
                    old(images).entries@[i],
                )) ==> exists|j: int|
                0 <= j < final(images).entries@.len() && {
                    let a = #[trigger] final(images).entries@[j];
                    let b = old(images).entries@[i];
                    a.path@ == b.path@ && a.modified == b.modified && a.speed_permille
                        == b.speed_permille && a.handle == b.handle
                },
{
    let ghost pre_img = old(images).entries@;
    let ghost pre_grad = old(gradients).entries@;
    images.mark_all();
    gradients.mark_all();
    proof {
        assert forall|i: int| 0 <= i < pre_img.len() implies (
        #[trigger] images.entries@[i]).path@ == pre_img[i].path@ && images.entries@[i].modified
            == pre_img[i].modified && images.entries@[i].speed_permille
            == pre_img[i].speed_permille && images.entries@[i].handle == pre_img[i].handle by {
            assert(images.entries@[i] == crate::cache::mark1_i(pre_img[i]));
        }
    }
    let ghost marked_img = images.entries@;
    let ghost marked_grad = gradients.entries@;
    let mut result = load_background_image(
        defs,
        dimensions,
        render_metrics,
        gradients,
        images,
        ids,
        rng,
        files,
    );
    let ghost loaded = result@;
    proof {
        lemma_resolved_upto_marked(
            defs@,
            pre_grad,
            pre_img,
            files.files@,
            *dimensions,
            *render_metrics,
            defs@.len() as int,
        );
        assert forall|k: int|
            0 <= k < defs@.len() implies #[trigger] def_resolves(
            defs@[k],
            pre_grad,
            pre_img,
            files.files@,
            *dimensions,
            *render_metrics,
        ) == def_resolves(
            defs@[k],
            marked_grad,
            marked_img,
            files.files@,
            *dimensions,
            *render_metrics,
        ) by {
            lemma_def_resolves_marked(
                defs@[k],
                pre_grad,
                pre_img,
                files.files@,
                *dimensions,
                *render_metrics,
            );
        }
        assert forall|k: int|
            0 <= k < defs@.len() implies #[trigger] resolved_upto(
            defs@,
            pre_grad,
            pre_img,
            files.files@,
            *dimensions,
            *render_metrics,
            k,
        ) == resolved_upto(
            defs@,
            marked_grad,
            marked_img,
            files.files@,
            *dimensions,
            *render_metrics,
            k,
        ) by {
            lemma_resolved_upto_marked(
                defs@,
                pre_grad,
                pre_img,
                files.files@,
                *dimensions,
                *render_metrics,
                k,
            );
        }
    }
    // reuse previous handles by content identity, preserving animation state
    let rn = result.len();
    let mut k: usize = 0;
    while k < rn
        invariant
            rn == result@.len(),
            result@.len() == loaded.len(),
            k <= rn,
            forall|t: int| 0 <= t < rn ==> (#[trigger] result@[t]).def == loaded[t].def,
            forall|t: int|
                0 <= t < rn ==> (#[trigger] result@[t]).source.hash == loaded[t].source.hash,
            forall|t: int| k <= t < rn ==> (#[trigger] result@[t]).source == loaded[t].source,
            forall|t: int|
                0 <= t < rn ==> ((#[trigger] result@[t]).source == loaded[t].source || exists|e: int|
                    0 <= e < existing@.len() && (#[trigger] existing@[e]).source.hash
                        == loaded[t].source.hash && result@[t].source == existing@[e].source),
            forall|t: int|
                0 <= t < k ==> reused_from_last(existing@, (#[trigger] result@[t]).source),
        decreases rn - k,
    {
        let hash = result[k].source.hash;
        let en = existing.len();
        let mut found: Option<usize> = Option::None;
        let mut t: usize = 0;
        while t < en
            invariant
                en == existing@.len(),
                t <= en,
                found matches Some(f2) ==> 0 <= f2 < t && existing@[f2 as int].source.hash == hash
                    && (forall|e: int|
                    f2 < e < t ==> (#[trigger] existing@[e]).source.hash != hash),
                found is None ==> forall|e: int|
                    0 <= e < t ==> (#[trigger] existing@[e]).source.hash != hash,
            decreases en - t,
        {
            if existing[t].source.hash == hash {
                found = Option::Some(t);
            }
            t = t + 1;
        }
        if let Option::Some(f2) = found {
            let replacement = existing[f2].source.duplicate();
            result[k].source = replacement;
        }
        proof {
            assert(reused_from_last(existing@, result@[k as int].source));
        }
        k = k + 1;
    }
    let ghost before_sweep_img = images.entries@;
    let ghost before_sweep_grad = gradients.entries@;
    images.sweep();
    gradients.sweep();
    proof {
        crate::cache::lemma_sweep_unmarked_i(before_sweep_img);
        crate::cache::lemma_sweep_unmarked_g(before_sweep_grad);
        crate::cache::lemma_sweep_sub_i(before_sweep_img);
        assert forall|j: int| 0 <= j < marked_img.len() implies (#[trigger] marked_img[j]).marked by {
            assert(marked_img[j] == crate::cache::mark1_i(pre_img[j]));
        }
        crate::cache::lemma_sweep_sub_g(before_sweep_grad);
        assert forall|j: int| 0 <= j < marked_grad.len() implies (
        #[trigger] marked_grad[j]).marked by {
            assert(marked_grad[j] == crate::cache::mark1_g(pre_grad[j]));
        }
        // every surviving gradient entry came out of the pass unmarked, so
        // some definition requested its key
        assert forall|j: int| 0 <= j < gradients.entries@.len() implies exists|k2: int|
            0 <= k2 < defs@.len() && gradient_requests(
                #[trigger] defs@[k2],
                #[trigger] gradients.entries@[j],
                *dimensions,
                *render_metrics,
            ) by {
            let j2 = choose|j2: int|
                0 <= j2 < before_sweep_grad.len() && #[trigger] gradients.entries@[j]
                    == #[trigger] before_sweep_grad[j2];
            assert(!gradients.entries@[j].marked);
            assert(!before_sweep_grad[j2].marked);
        }
        // every survivor came out of the pass unmarked, so its path is
        // named by some definition
        assert forall|j: int| 0 <= j < images.entries@.len() implies exists|k2: int|
            0 <= k2 < defs@.len() && def_names_path(
                (#[trigger] defs@[k2]).source,
                (#[trigger] images.entries@[j]).path@,
            ) by {
            let j2 = choose|j2: int|
                0 <= j2 < before_sweep_img.len() && #[trigger] images.entries@[j]
                    == #[trigger] before_sweep_img[j2];
            assert(!images.entries@[j].marked);
            assert(!before_sweep_img[j2].marked);
        }
        // an undisturbed entry some definition requests was re-marked
        // fresh, so the sweep keeps it, fields and handle intact
        assert forall|i: int|
            0 <= i < pre_img.len() && entry_undisturbed(#[trigger] pre_img[i], files.files@, defs@)
                && (exists|k2: int|
                0 <= k2 < defs@.len() && file_matches(
                    (#[trigger] defs@[k2]).source,
                    pre_img[i],
                )) implies exists|j: int|
            0 <= j < images.entries@.len() && {
                let a = #[trigger] images.entries@[j];
                let b = pre_img[i];
                a.path@ == b.path@ && a.modified == b.modified && a.speed_permille
                    == b.speed_permille && a.handle == b.handle
            } by {
            assert(marked_img[i] == crate::cache::mark1_i(pre_img[i]));
            assert forall|k2: int| 0 <= k2 < defs@.len() implies def_does_not_stale(
                (#[trigger] defs@[k2]).source,
                files.files@,
                marked_img[i],
            ) by {
                assert(def_does_not_stale(defs@[k2].source, files.files@, pre_img[i]));
            }
            let k2 = choose|k2: int|
                0 <= k2 < defs@.len() && file_matches((#[trigger] defs@[k2]).source, pre_img[i]);
            assert(file_matches(defs@[k2].source, marked_img[i]));
            assert(!before_sweep_img[i].marked);
            assert(before_sweep_img[i].path@ == marked_img[i].path@ && before_sweep_img[i].modified
                == marked_img[i].modified && before_sweep_img[i].speed_permille
                == marked_img[i].speed_permille && before_sweep_img[i].handle
                == marked_img[i].handle);
            crate::cache::lemma_sweep_keeps_unmarked_i(before_sweep_img, i);
            let j = choose|j: int|
                0 <= j < crate::cache::sweep_model_i(before_sweep_img).len() && #[trigger] crate::cache::sweep_model_i(
                    before_sweep_img,
                )[j] == before_sweep_img[i];
            assert(images.entries@[j] == before_sweep_img[i]);
        }
        assert forall|i: int, k2: int|
            0 <= i < pre_img.len() && entry_undisturbed(pre_img[i], files.files@, defs@) && 0 <= k2
                < result@.len() && file_matches(
                (#[trigger] result@[k2]).def.source,
                #[trigger] pre_img[i],
            ) implies (result@[k2].source == pre_img[i].handle || exists|t2: int|
            0 <= t2 < existing@.len() && (#[trigger] existing@[t2]).source.hash
                == pre_img[i].handle.hash && result@[k2].source == existing@[t2].source) by {
            assert(entry_undisturbed(marked_img[i], files.files@, defs@));
            assert(file_matches(loaded[k2].def.source, marked_img[i]));
            assert(loaded[k2].source == marked_img[i].handle);
            assert(marked_img[i].handle == pre_img[i].handle);
        }
    }
    result
}

} // verus!
