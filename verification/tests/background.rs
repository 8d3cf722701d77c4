use term_background::cache::{GradientCache, ImageFileCache};
use term_background::color::{HsbTransform, RgbaColor};
use term_background::errors::BackgroundError;
use term_background::gradient::{compute, GradientOrientation, GradientSpec};
use term_background::handle::HandleIds;
use term_background::layer::{
    BackgroundAttachment, BackgroundHorizontalAlignment, BackgroundLayer, BackgroundRepeat,
    BackgroundSize, BackgroundSource, BackgroundVerticalAlignment, Dimension, Dimensions,
    FileSource, RenderMetrics,
};
use term_background::loader::{
    load_background_image, load_background_layer, reload_background_image, FileData, FileSnapshot,
};

fn gradient_spec(stops: &[&str], noise: Option<u32>) -> GradientSpec {
    GradientSpec {
        orientation: GradientOrientation::Horizontal,
        stops: stops.iter().map(|s| s.to_string()).collect(),
        noise,
    }
}

fn plain_layer(source: BackgroundSource) -> BackgroundLayer {
    BackgroundLayer {
        source,
        width: BackgroundSize::Dimension(Dimension::Pixels(8)),
        height: BackgroundSize::Dimension(Dimension::Pixels(8)),
        horizontal_align: BackgroundHorizontalAlignment::Left,
        vertical_align: BackgroundVerticalAlignment::Top,
        horizontal_offset: None,
        vertical_offset: None,
        repeat_x: BackgroundRepeat::Repeat,
        repeat_y: BackgroundRepeat::Repeat,
        repeat_x_size: None,
        repeat_y_size: None,
        opacity_permille: 1000,
        hsb: HsbTransform { hue: 1000, saturation: 1000, brightness: 1000 },
        attachment: BackgroundAttachment::Fixed,
    }
}

fn viewport() -> (Dimensions, RenderMetrics) {
    (
        Dimensions { dpi: 96, pixel_width: 400, pixel_height: 100 },
        RenderMetrics { cell_width: 8, cell_height: 16 },
    )
}

// Gradient determinism modulo dither: with the noise amount forced to zero
// a black-to-white horizontal gradient starts black, ends near white, and
// its luminance never decreases along x.
#[test]
fn horizontal_black_white_monotone() {
    let g = gradient_spec(&["black", "white"], Some(0));
    let mut rng = fastrand::Rng::with_seed(7);
    let pb = compute(&g, 100, 1, &mut rng).expect("gradient builds");
    assert_eq!(pb.width, 100);
    assert_eq!(pb.height, 1);
    let first = pb.pixels[0];
    assert_eq!((first.r, first.g, first.b), (0, 0, 0));
    let last = pb.pixels[99];
    assert!(last.r > 240 && last.g > 240 && last.b > 240);
    for x in 1..100 {
        assert!(pb.pixels[x].r >= pb.pixels[x - 1].r);
        assert!(pb.pixels[x].g >= pb.pixels[x - 1].g);
        assert!(pb.pixels[x].b >= pb.pixels[x - 1].b);
    }
}

// The rasterizer really samples the configured stops: the ends of a
// red-to-blue ramp carry the stop colors, not the input strings' bytes.
#[test]
fn gradient_samples_stops() {
    let g = gradient_spec(&["red", "blue"], Some(0));
    let mut rng = fastrand::Rng::with_seed(1);
    let pb = compute(&g, 10, 1, &mut rng).expect("gradient builds");
    assert_eq!((pb.pixels[0].r, pb.pixels[0].g, pb.pixels[0].b), (255, 0, 0));
    let last = pb.pixels[9];
    assert!(last.b > 200 && last.r < 60);
}

#[test]
fn gradient_rejects_bad_stop() {
    let g = gradient_spec(&["black", "notacolorname"], Some(0));
    let mut rng = fastrand::Rng::with_seed(1);
    match compute(&g, 10, 10, &mut rng) {
        Err(BackgroundError::BuildFailure) => {}
        other => panic!("expected BuildFailure, got {:?}", other.map(|_| ())),
    }
}

// Idempotence: two loads of structurally equal keys return the identical
// shared handle and do not rasterize a second time.
#[test]
fn gradient_cache_idempotent() {
    let mut cache = GradientCache::new();
    let mut ids = HandleIds::new();
    let mut rng = fastrand::Rng::with_seed(3);
    let g1 = gradient_spec(&["black", "white"], Some(4));
    let g2 = gradient_spec(&["black", "white"], Some(4));
    let h1 = cache.load(&mut ids, &g1, 16, 16, &mut rng).expect("load");
    assert_eq!(cache.entries.len(), 1);
    let h2 = cache.load(&mut ids, &g2, 16, 16, &mut rng).expect("reload");
    assert_eq!(h1.id, h2.id);
    assert_eq!(cache.entries.len(), 1, "no second rasterization was memoized");
    // a different size is a different key
    let h3 = cache.load(&mut ids, &g1, 32, 16, &mut rng).expect("load other");
    assert_ne!(h1.id, h3.id);
    assert_eq!(cache.entries.len(), 2);
}

// Mark/sweep: marking then sweeping with no intervening load empties the
// cache; one intervening load keeps exactly that entry.
#[test]
fn gradient_cache_mark_sweep() {
    let mut cache = GradientCache::new();
    let mut ids = HandleIds::new();
    let mut rng = fastrand::Rng::with_seed(3);
    let a = gradient_spec(&["black", "white"], Some(0));
    let b = gradient_spec(&["red", "blue"], Some(0));
    cache.load(&mut ids, &a, 8, 8, &mut rng).expect("a");
    cache.load(&mut ids, &b, 8, 8, &mut rng).expect("b");
    assert_eq!(cache.entries.len(), 2);
    cache.mark_all();
    cache.sweep();
    assert_eq!(cache.entries.len(), 0);

    let ha = cache.load(&mut ids, &a, 8, 8, &mut rng).expect("a again");
    cache.load(&mut ids, &b, 8, 8, &mut rng).expect("b again");
    cache.mark_all();
    let ha2 = cache.load(&mut ids, &a, 8, 8, &mut rng).expect("a refresh");
    assert_eq!(ha.id, ha2.id);
    cache.sweep();
    assert_eq!(cache.entries.len(), 1);
    assert_eq!(cache.entries[0].handle.id, ha.id);
}

#[test]
fn image_cache_mark_sweep() {
    let mut cache = ImageFileCache::new();
    let mut ids = HandleIds::new();
    let p1 = "one.png".to_string();
    let p2 = "two.png".to_string();
    cache.load(&mut ids, &p1, 1000, Some(1), Some(vec![1, 2])).expect("one");
    cache.load(&mut ids, &p2, 1000, Some(2), Some(vec![3, 4])).expect("two");
    assert_eq!(cache.entries.len(), 2);
    cache.mark_all();
    let kept = cache.load(&mut ids, &p1, 1000, Some(1), None).expect("fresh hit");
    cache.sweep();
    assert_eq!(cache.entries.len(), 1);
    assert_eq!(cache.entries[0].handle.id, kept.id);
}

#[test]
fn image_cache_stat_and_staleness() {
    let mut cache = ImageFileCache::new();
    let mut ids = HandleIds::new();
    let p = "bg.png".to_string();
    match cache.load(&mut ids, &p, 1000, None, Some(vec![1])) {
        Err(BackgroundError::IOFailure) => {}
        other => panic!("expected IOFailure on stat failure, got {:?}", other.map(|_| ())),
    }
    let h1 = cache.load(&mut ids, &p, 1000, Some(10), Some(vec![1, 2, 3])).expect("insert");
    // unchanged metadata: the cache serves the identical handle, no bytes needed
    let h2 = cache.load(&mut ids, &p, 1000, Some(10), None).expect("hit");
    assert_eq!(h1.id, h2.id);
    assert!(!cache.needs_read(&p, 10, 1000));
    // a changed modification time is stale: a re-read is required
    assert!(cache.needs_read(&p, 11, 1000));
    match cache.load(&mut ids, &p, 1000, Some(11), None) {
        Err(BackgroundError::IOFailure) => {}
        other => panic!("expected IOFailure without bytes, got {:?}", other.map(|_| ())),
    }
    let h3 = cache.load(&mut ids, &p, 1000, Some(11), Some(vec![1, 2, 3])).expect("replace");
    assert_ne!(h1.id, h3.id);
    // identical bytes and speed mean identical content identity
    assert_eq!(h1.hash, h3.hash);
    assert_eq!(cache.entries.len(), 1, "replaced in place, not duplicated");
    // a changed speed also invalidates
    assert!(cache.needs_read(&p, 11, 500));
    let h4 = cache.load(&mut ids, &p, 500, Some(11), Some(vec![1, 2, 3])).expect("speed change");
    assert_ne!(h3.hash, h4.hash);
}

fn file_layer(path: &str, speed: u32) -> BackgroundLayer {
    plain_layer(BackgroundSource::File(FileSource {
        path: path.to_string(),
        speed_permille: speed,
    }))
}

// Reload identity preservation: an unchanged file keeps the identical
// shared handle across reload_background_image.
#[test]
fn reload_preserves_identity() {
    let (dims, metrics) = viewport();
    let mut gradients = GradientCache::new();
    let mut images = ImageFileCache::new();
    let mut ids = HandleIds::new();
    let mut rng = fastrand::Rng::with_seed(5);
    let defs = vec![file_layer("bg.png", 1000)];
    let files = FileSnapshot {
        files: vec![FileData {
            path: "bg.png".to_string(),
            modified: Some(42),
            bytes: Some(vec![9, 8, 7]),
        }],
    };
    let first = load_background_image(
        &defs, &dims, &metrics, &mut gradients, &mut images, &mut ids, &mut rng, &files,
    );
    assert_eq!(first.len(), 1);
    let original_id = first[0].source.id;

    let reloaded = reload_background_image(
        &first, &defs, &dims, &metrics, &mut gradients, &mut images, &mut ids, &mut rng, &files,
    );
    assert_eq!(reloaded.len(), 1);
    assert_eq!(reloaded[0].source.id, original_id);
    assert_eq!(images.entries.len(), 1, "the swept cache still holds the fresh entry");
}

#[test]
fn failed_layer_is_dropped_not_fatal() {
    let (dims, metrics) = viewport();
    let mut gradients = GradientCache::new();
    let mut images = ImageFileCache::new();
    let mut ids = HandleIds::new();
    let mut rng = fastrand::Rng::with_seed(5);
    // the first layer's file cannot be stat'd; the second still loads
    let defs = vec![
        file_layer("missing.png", 1000),
        plain_layer(BackgroundSource::Color(RgbaColor::new(10, 20, 30, 255))),
    ];
    let files = FileSnapshot { files: vec![] };
    let loaded = load_background_image(
        &defs, &dims, &metrics, &mut gradients, &mut images, &mut ids, &mut rng, &files,
    );
    assert_eq!(loaded.len(), 1);
    match &loaded[0].def.source {
        BackgroundSource::Color(c) => assert_eq!(*c, RgbaColor::new(10, 20, 30, 255)),
        other => panic!("unexpected source {:?}", std::mem::discriminant(other)),
    }
}

#[test]
fn gradient_needs_explicit_dimension() {
    let (dims, metrics) = viewport();
    let mut gradients = GradientCache::new();
    let mut images = ImageFileCache::new();
    let mut ids = HandleIds::new();
    let mut rng = fastrand::Rng::with_seed(5);
    let mut layer = plain_layer(BackgroundSource::Gradient(gradient_spec(
        &["black", "white"],
        Some(0),
    )));
    layer.width = BackgroundSize::Cover;
    match load_background_layer(
        &layer, &dims, &metrics, &mut gradients, &mut images, &mut ids, &mut rng, None, None,
    ) {
        Err(BackgroundError::SpecificationUnsupported) => {}
        other => panic!(
            "expected SpecificationUnsupported, got {:?}",
            other.map(|_| ())
        ),
    }
}

#[test]
fn color_layer_is_uniform_square() {
    let (dims, metrics) = viewport();
    let mut gradients = GradientCache::new();
    let mut images = ImageFileCache::new();
    let mut ids = HandleIds::new();
    let mut rng = fastrand::Rng::with_seed(5);
    let mut layer = plain_layer(BackgroundSource::Color(RgbaColor::new(1, 2, 3, 4)));
    layer.width = BackgroundSize::Dimension(Dimension::Pixels(6));
    layer.height = BackgroundSize::Dimension(Dimension::Pixels(4));
    let ll = load_background_layer(
        &layer, &dims, &metrics, &mut gradients, &mut images, &mut ids, &mut rng, None, None,
    )
    .expect("color resolves");
    match &*ll.source.content {
        term_background::handle::ImageContent::Frame(pb) => {
            assert_eq!((pb.width, pb.height), (4, 4));
            assert!(pb.pixels.iter().all(|p| *p == RgbaColor::new(1, 2, 3, 4)));
        }
        _ => panic!("expected a rasterized frame"),
    }
}

#[test]
fn radial_gradient_is_squared() {
    let (dims, metrics) = viewport();
    let mut gradients = GradientCache::new();
    let mut images = ImageFileCache::new();
    let mut ids = HandleIds::new();
    let mut rng = fastrand::Rng::with_seed(5);
    let mut layer = plain_layer(BackgroundSource::Gradient(GradientSpec {
        orientation: GradientOrientation::Radial {
            radius_permille: 500,
            center_x_permille: 500,
            center_y_permille: 500,
        },
        stops: vec!["black".to_string(), "white".to_string()],
        noise: Some(0),
    }));
    layer.width = BackgroundSize::Dimension(Dimension::Pixels(40));
    layer.height = BackgroundSize::Dimension(Dimension::Pixels(20));
    let ll = load_background_layer(
        &layer, &dims, &metrics, &mut gradients, &mut images, &mut ids, &mut rng, None, None,
    )
    .expect("radial resolves");
    match &*ll.source.content {
        term_background::handle::ImageContent::Frame(pb) => {
            assert_eq!((pb.width, pb.height), (20, 20));
        }
        _ => panic!("expected a rasterized frame"),
    }
}

#[test]
fn vertical_gradient_monotone() {
    let g = GradientSpec {
        orientation: GradientOrientation::Vertical,
        stops: vec!["black".to_string(), "white".to_string()],
        noise: Some(0),
    };
    let mut rng = fastrand::Rng::with_seed(2);
    let pb = compute(&g, 3, 50, &mut rng).expect("builds");
    for y in 1..50 {
        for x in 0..3 {
            assert!(pb.pixels[y * 3 + x].g >= pb.pixels[(y - 1) * 3 + x].g);
        }
        // every pixel of a row is the same sample
        assert_eq!(pb.pixels[y * 3], pb.pixels[y * 3 + 2]);
    }
}

// A linear gradient at angle zero sweeps exactly like a horizontal one.
#[test]
fn linear_zero_angle_matches_horizontal() {
    let h = gradient_spec(&["red", "blue"], Some(0));
    let l = GradientSpec {
        orientation: GradientOrientation::Linear { angle_degrees: 0 },
        stops: vec!["red".to_string(), "blue".to_string()],
        noise: Some(0),
    };
    let mut rng = fastrand::Rng::with_seed(2);
    let ph = compute(&h, 32, 4, &mut rng).expect("horizontal");
    let pl = compute(&l, 32, 4, &mut rng).expect("linear");
    assert_eq!(ph.pixels, pl.pixels);
}

#[test]
fn radial_gradient_center_and_edge() {
    let g = GradientSpec {
        orientation: GradientOrientation::Radial {
            radius_permille: 500,
            center_x_permille: 500,
            center_y_permille: 500,
        },
        stops: vec!["white".to_string(), "black".to_string()],
        noise: Some(0),
    };
    let mut rng = fastrand::Rng::with_seed(2);
    let pb = compute(&g, 40, 40, &mut rng).expect("radial builds");
    let center = pb.pixels[20 * 40 + 20];
    assert!(center.r > 220, "the focal point carries the first stop");
    let corner = pb.pixels[0];
    assert!(corner.r < 40, "past the radius the edge color holds");
}


#[test]
fn payload_messages_name_mode_and_path() {
    let m = term_background::errors::unsupported_size_message(&BackgroundSize::Cover);
    assert!(m.contains("'Cover'"));
    assert!(m.contains("width = '100%'"));
    let m = term_background::errors::unsupported_size_message(&BackgroundSize::Contain);
    assert!(m.contains("'Contain'"));
    let m = term_background::errors::io_failure_message(&"bg.png".to_string());
    assert!(m.ends_with("bg.png"));
    assert!(m.contains("could not be stat'd or read"));
}

// A reload behaves as mark, load, sweep: entries no definition requests
// are gone afterward, and re-requested ones survive with their identity.
#[test]
fn reload_sweeps_unrequested_entries() {
    let (dims, metrics) = viewport();
    let mut gradients = GradientCache::new();
    let mut images = ImageFileCache::new();
    let mut ids = HandleIds::new();
    let mut rng = fastrand::Rng::with_seed(11);
    let gradient_def = plain_layer(BackgroundSource::Gradient(gradient_spec(
        &["black", "white"],
        Some(0),
    )));
    let file_def = file_layer("bg.png", 1000);
    let both = vec![gradient_def, file_layer("bg.png", 1000)];
    let files = FileSnapshot {
        files: vec![FileData {
            path: "bg.png".to_string(),
            modified: Some(7),
            bytes: Some(vec![1, 2]),
        }],
    };
    let first = load_background_image(
        &both, &dims, &metrics, &mut gradients, &mut images, &mut ids, &mut rng, &files,
    );
    assert_eq!(first.len(), 2);
    assert_eq!(gradients.entries.len(), 1);
    assert_eq!(images.entries.len(), 1);
    let file_handle_id = first[1].source.id;

    // reload with only the file definition: the gradient entry is swept,
    // the file entry survives and keeps its identity
    let only_file = vec![file_def];
    let reloaded = reload_background_image(
        &first, &only_file, &dims, &metrics, &mut gradients, &mut images, &mut ids, &mut rng,
        &files,
    );
    assert_eq!(reloaded.len(), 1);
    assert_eq!(reloaded[0].source.id, file_handle_id);
    assert_eq!(gradients.entries.len(), 0, "the unrequested gradient is gone");
    assert_eq!(images.entries.len(), 1, "the re-requested file entry survives");
    assert!(!images.entries[0].marked);
}
