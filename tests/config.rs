use fiv::config::{PreloadConfig, QualityTier, RenderConfig};
use fiv::state::Direction;

#[test]
fn test_quality_for_distance() {
    let config = PreloadConfig::default();

    // Close images should be full quality
    assert_eq!(config.quality_for_distance(0), QualityTier::Full);
    assert_eq!(config.quality_for_distance(5), QualityTier::Full);

    // Medium distance should be preview
    assert_eq!(config.quality_for_distance(10), QualityTier::Preview);

    // Far images should be thumbnail
    assert_eq!(config.quality_for_distance(20), QualityTier::Thumbnail);
}

#[test]
fn config_test_direction_ranges() {
    let config = PreloadConfig::default();

    // Forward should bias ahead
    let (ahead, behind) = config.range_for_direction(Direction::Forward);
    assert!(ahead > behind);

    // Backward should bias behind
    let (ahead, behind) = config.range_for_direction(Direction::Backward);
    assert!(behind > ahead);
}

#[test]
fn test_tier_dimensions() {
    // Thumbnail should scale down large images
    let (w, h) = QualityTier::Thumbnail.target_dimensions(1920, 1080);
    assert!(w <= 256 && h <= 256);

    // Full should preserve dimensions
    let (w, h) = QualityTier::Full.target_dimensions(1920, 1080);
    assert_eq!((w, h), (1920, 1080));

    // Small images should not be upscaled
    let (w, h) = QualityTier::Full.target_dimensions(100, 100);
    assert_eq!((w, h), (100, 100));
}

#[test]
fn tier_dimensions_keep_aspect_ratio() {
    // 1920 * 256 / 1920 = 256; 1080 * 256 / 1920 = 144
    assert_eq!(QualityTier::Thumbnail.target_dimensions(1920, 1080), (256, 144));
    // 1080 * 1024 / 1920 = 576
    assert_eq!(QualityTier::Preview.target_dimensions(1920, 1080), (1024, 576));
    // portrait: 1000 * 256 / 3000 = 85.33 -> 85
    assert_eq!(QualityTier::Thumbnail.target_dimensions(1000, 3000), (85, 256));
    // rounding half up: 3 * 256 / 512 = 1.5 -> 2
    assert_eq!(QualityTier::Thumbnail.target_dimensions(3, 512), (2, 256));
    // an image that already fits is kept
    assert_eq!(QualityTier::Preview.target_dimensions(800, 600), (800, 600));
    // a side that would round to zero stays one pixel
    assert_eq!(QualityTier::Thumbnail.target_dimensions(4000, 1), (256, 1));
}

#[test]
fn tier_memory_estimates() {
    assert_eq!(QualityTier::Thumbnail.estimate_memory(1920, 1080), 256 * 144 * 4);
    assert_eq!(QualityTier::Full.estimate_memory(1920, 1080), 1920 * 1080 * 4);
    assert_eq!(QualityTier::Full.estimate_memory(0, 0), 0);
}

#[test]
fn tier_order_and_bounds() {
    assert_eq!(
        QualityTier::all(),
        [QualityTier::Thumbnail, QualityTier::Preview, QualityTier::Full]
    );
    assert!(QualityTier::Thumbnail < QualityTier::Preview);
    assert!(QualityTier::Preview < QualityTier::Full);
    assert_eq!(QualityTier::Thumbnail.max_dimension(), Some(256));
    assert_eq!(QualityTier::Preview.max_dimension(), Some(1024));
    assert_eq!(QualityTier::Full.max_dimension(), None);
    assert_eq!(QualityTier::Thumbnail.level(), 0);
    assert_eq!(QualityTier::Full.level(), 2);
}

#[test]
fn quality_bands_edges() {
    let config = PreloadConfig::default();
    assert_eq!(config.quality_for_distance(6), QualityTier::Preview);
    assert_eq!(config.quality_for_distance(15), QualityTier::Preview);
    assert_eq!(config.quality_for_distance(16), QualityTier::Thumbnail);
    let mut c = PreloadConfig::default();
    c.full_quality_count = usize::MAX;
    c.preview_quality_count = usize::MAX;
    assert_eq!(c.quality_for_distance(usize::MAX), QualityTier::Full);
}

#[test]
fn unknown_direction_is_symmetric_and_keep_range() {
    let config = PreloadConfig::default();
    assert_eq!(config.range_for_direction(Direction::Unknown), (15, 15));
    assert_eq!(config.total_range(), 35);
    let render = RenderConfig::default();
    assert_eq!(render.background_color, [0, 0, 0, 255]);
    assert_eq!((render.default_width, render.default_height), (1280, 720));
}
