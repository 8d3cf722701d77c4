use term_background::color::HsbTransform;
use term_background::layer::{
    BackgroundAttachment, BackgroundHorizontalAlignment, BackgroundLayer, BackgroundRepeat,
    BackgroundSize, BackgroundSource, BackgroundVerticalAlignment, Dimension, DimensionContext,
    Dimensions, RenderMetrics, SignedDimension, evaluate_as_pixels,
};
use term_background::errors::BackgroundError;
use term_background::math::{cos_fp, isqrt64, sin_fp};
use term_background::tiles::{render_background, render_backgrounds, SpriteInfo};
use term_background::loader::LoadedBackgroundLayer;

fn layer() -> BackgroundLayer {
    BackgroundLayer {
        source: BackgroundSource::Color(term_background::color::RgbaColor::new(0, 0, 0, 255)),
        width: BackgroundSize::Dimension(Dimension::Pixels(100)),
        height: BackgroundSize::Dimension(Dimension::Pixels(40)),
        horizontal_align: BackgroundHorizontalAlignment::Left,
        vertical_align: BackgroundVerticalAlignment::Top,
        horizontal_offset: None,
        vertical_offset: None,
        repeat_x: BackgroundRepeat::Repeat,
        repeat_y: BackgroundRepeat::Repeat,
        repeat_x_size: None,
        repeat_y_size: None,
        opacity_permille: 1000,
        hsb: HsbTransform { hue: 1000, saturation: 1000, brightness: 1000 },
        attachment: BackgroundAttachment::Fixed,
    }
}

fn sprite() -> SpriteInfo {
    SpriteInfo {
        tex_left: 0,
        tex_top: 0,
        tex_width: 100,
        tex_height: 50,
        texture_width: 100,
        texture_height: 50,
    }
}

fn viewport() -> (Dimensions, RenderMetrics) {
    (
        Dimensions { dpi: 96, pixel_width: 400, pixel_height: 100 },
        RenderMetrics { cell_width: 8, cell_height: 16 },
    )
}

// Sizing modes: Cover of a 100x50 texture in a 400x100 viewport picks the
// scale max(400/100, 100/50) = 4, so the computed size is 400x200.
#[test]
fn cover_sizing_scale() {
    let (dims, metrics) = viewport();
    let mut def = layer();
    def.width = BackgroundSize::Cover;
    def.height = BackgroundSize::Cover;
    def.repeat_x = BackgroundRepeat::NoRepeat;
    def.repeat_y = BackgroundRepeat::NoRepeat;
    let tiles = render_background(&def, &sprite(), &dims, &metrics, 0);
    assert_eq!(tiles.len(), 1);
    assert_eq!(tiles[0].right - tiles[0].left, 400);
    assert_eq!(tiles[0].bottom - tiles[0].top, 200);
}

#[test]
fn contain_sizing_scale() {
    let (dims, metrics) = viewport();
    let mut def = layer();
    def.width = BackgroundSize::Contain;
    def.height = BackgroundSize::Contain;
    def.repeat_x = BackgroundRepeat::NoRepeat;
    def.repeat_y = BackgroundRepeat::NoRepeat;
    let tiles = render_background(&def, &sprite(), &dims, &metrics, 0);
    assert_eq!(tiles.len(), 1);
    // contain scale = min(400/100, 100/50) = 2
    assert_eq!(tiles[0].right - tiles[0].left, 200);
    assert_eq!(tiles[0].bottom - tiles[0].top, 100);
}

// Tiling bounds: NoRepeat horizontally and Repeat vertically yields one
// column of tiles spanning the viewport's full vertical extent.
#[test]
fn norepeat_x_repeat_y_bounds() {
    let (dims, metrics) = viewport();
    let mut def = layer();
    def.repeat_x = BackgroundRepeat::NoRepeat;
    def.repeat_y = BackgroundRepeat::Repeat;
    let tiles = render_background(&def, &sprite(), &dims, &metrics, 0);
    // 100-pixel-high viewport, 40-pixel pitch, top-aligned: rows at
    // -50, -10, 30 and no further (70 >= 50 the bottom edge is reached)
    assert_eq!(tiles.len(), 3);
    assert!(tiles.iter().all(|t| t.x_index == 0));
    assert!(tiles.iter().all(|t| t.left == tiles[0].left));
    assert_eq!(tiles[0].top, -50);
    assert_eq!(tiles[1].top, -10);
    assert_eq!(tiles[2].top, 30);
    // full vertical coverage: the last tile crosses the bottom edge
    assert!(tiles[2].bottom >= 50);
}

// Mirror parity: under horizontal Mirror the texture bounds are swapped on
// tile columns 1, 3, 5, ... and not on 0, 2, 4, ...
#[test]
fn mirror_parity() {
    let (dims, metrics) = viewport();
    let mut def = layer();
    def.repeat_x = BackgroundRepeat::Mirror;
    def.repeat_y = BackgroundRepeat::NoRepeat;
    let tiles = render_background(&def, &sprite(), &dims, &metrics, 0);
    assert_eq!(tiles.len(), 4, "400 pixels at a 100 pixel pitch");
    for t in &tiles {
        if t.x_index % 2 == 1 {
            assert!(t.tex.x1 > t.tex.x2, "odd column {} is mirrored", t.x_index);
        } else {
            assert!(t.tex.x1 < t.tex.x2, "even column {} is not mirrored", t.x_index);
        }
        // vertical bounds are never swapped here
        assert!(t.tex.y1 < t.tex.y2);
    }
    // the inset is one texel on each edge of the 100x50 sprite
    assert_eq!(tiles[0].tex.x1, 1);
    assert_eq!(tiles[0].tex.x2, 99);
    assert_eq!(tiles[0].tex.y1, 1);
    assert_eq!(tiles[0].tex.y2, 49);
    assert_eq!(tiles[1].tex.x1, 99);
    assert_eq!(tiles[1].tex.x2, 1);
}

// Scroll parallax: the starting row index is the whole number of pitches
// scrolled and the origin backs up by the fractional remainder.
#[test]
fn scroll_parallax() {
    let (dims, metrics) = viewport();
    let mut def = layer();
    def.attachment = BackgroundAttachment::Scroll { factor_permille: 1000 };
    def.repeat_x = BackgroundRepeat::NoRepeat;
    // top = 2 rows of 16 px: 32 px of scroll against a 40 px pitch
    let tiles = render_background(&def, &sprite(), &dims, &metrics, 2);
    assert_eq!(tiles[0].y_index, 0);
    assert_eq!(tiles[0].top, -50 - 32);
    // top = 5 rows: 80 px, exactly two pitches
    let tiles = render_background(&def, &sprite(), &dims, &metrics, 5);
    assert_eq!(tiles[0].y_index, 2);
    assert_eq!(tiles[0].top, -50);
}

#[test]
fn dimension_evaluation() {
    let ctx = DimensionContext { dpi: 144, pixel_max: 200, pixel_cell: 8 };
    assert_eq!(evaluate_as_pixels(Dimension::Pixels(17), &ctx), 17);
    assert_eq!(evaluate_as_pixels(Dimension::Points(72), &ctx), 144);
    assert_eq!(evaluate_as_pixels(Dimension::Percent(50), &ctx), 100);
    assert_eq!(evaluate_as_pixels(Dimension::Cells(2), &ctx), 16);
}

#[test]
fn integer_math_helpers() {
    assert_eq!(isqrt64(0), 0);
    assert_eq!(isqrt64(15), 3);
    assert_eq!(isqrt64(16), 4);
    assert_eq!(isqrt64(u64::MAX), 0xffff_ffff);
    assert_eq!(sin_fp(0), 0);
    assert_eq!(sin_fp(90), 4096);
    assert_eq!(sin_fp(270), -4096);
    assert_eq!(cos_fp(0), 4096);
    assert_eq!(cos_fp(180), -4096);
    // the fixed-point sine stays within scale over the whole circle
    for d in 0..360 {
        let s = sin_fp(d);
        assert!(-4096 <= s && s <= 4096);
    }
}

#[test]
fn frame_driver_z_indices() {
    let (dims, metrics) = viewport();
    let mut gradients = term_background::cache::GradientCache::new();
    let mut ids = term_background::handle::HandleIds::new();
    let mut rng = fastrand::Rng::with_seed(9);
    let make = |g: &mut term_background::cache::GradientCache,
                ids: &mut term_background::handle::HandleIds,
                rng: &mut fastrand::Rng| {
        let spec = term_background::gradient::GradientSpec {
            orientation: term_background::gradient::GradientOrientation::Horizontal,
            stops: vec!["black".to_string(), "white".to_string()],
            noise: Some(0),
        };
        let handle = g.load(ids, &spec, 8, 8, rng).expect("loads");
        LoadedBackgroundLayer { source: handle, def: layer() }
    };
    let layers = vec![
        make(&mut gradients, &mut ids, &mut rng),
        make(&mut gradients, &mut ids, &mut rng),
        make(&mut gradients, &mut ids, &mut rng),
    ];
    // the middle layer's sprite is still loading: it emits nothing
    let sprites = vec![Some(sprite()), None, Some(sprite())];
    let (rendered, any) = render_backgrounds(&layers, &sprites, &dims, &metrics, 0);
    assert!(any);
    assert_eq!(rendered.len(), 2);
    assert_eq!(rendered[0].z_index, -127);
    assert_eq!(rendered[1].z_index, -126);
    assert!(rendered.iter().all(|l| !l.tiles.is_empty()));
    assert!(rendered.iter().all(|l| l.opacity_permille == 1000));

    // nothing ready: nothing emitted
    let (rendered, any) = render_backgrounds(&layers, &vec![None, None, None], &dims, &metrics, 0);
    assert!(!any);
    assert!(rendered.is_empty());
}

// Horizontal enumeration stops when a tile's left edge reaches the
// viewport's right edge: a right-aligned repeating layer never emits a
// tile wholly off-screen.
#[test]
fn right_aligned_repeat_stops_at_right_edge() {
    let (dims, metrics) = viewport();
    let mut def = layer();
    def.horizontal_align = BackgroundHorizontalAlignment::Right;
    def.repeat_x = BackgroundRepeat::Repeat;
    def.repeat_y = BackgroundRepeat::NoRepeat;
    let tiles = render_background(&def, &sprite(), &dims, &metrics, 0);
    // origin at -200 + (400 - 100) = 100; the right edge is at 200, so
    // exactly one 100-pixel column fits
    assert_eq!(tiles.len(), 1);
    assert_eq!(tiles[0].left, 100);
    assert!(tiles.iter().all(|t| t.left < 200));
}

#[test]
fn error_messages_name_the_alternative() {
    let m = BackgroundError::SpecificationUnsupported.message();
    assert!(m.contains("not implemented"));
    assert!(m.contains("width = '100%'"));
    assert!(BackgroundError::BuildFailure.message().contains("color stop"));
    assert!(BackgroundError::IOFailure.message().contains("read"));
    assert!(BackgroundError::DecodeFailure.message().contains("decoded"));
}


// A negative configured offset shifts the layer left and up, as the
// original's signed offsets do.
#[test]
fn negative_offsets_shift_left_and_up() {
    let (dims, metrics) = viewport();
    let mut def = layer();
    def.repeat_x = BackgroundRepeat::NoRepeat;
    def.repeat_y = BackgroundRepeat::NoRepeat;
    def.horizontal_offset = Some(SignedDimension::Negative(Dimension::Pixels(30)));
    def.vertical_offset = Some(SignedDimension::Positive(Dimension::Pixels(5)));
    let tiles = render_background(&def, &sprite(), &dims, &metrics, 0);
    assert_eq!(tiles.len(), 1);
    assert_eq!(tiles[0].left, -200 - 30);
    assert_eq!(tiles[0].top, -50 + 5);
}
