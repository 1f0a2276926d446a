use fiv::config::{PreloadConfig, QualityTier};
use fiv::preload::{
    build_prioritized_tasks, commit_result, create_store_fast, evict_far_images, plan_step,
    LoadTask, PreloadAction,
};
use fiv::slot::ImageData;
use fiv::state::{Direction, SharedState};
use fiv::store::{ImageStore, MemoryBudget};
use std::path::PathBuf;
use std::sync::Arc;

fn store_of(n: usize, budget: usize) -> ImageStore {
    let paths: Vec<PathBuf> = (0..n).map(|i| PathBuf::from(format!("{}.jpg", i))).collect();
    create_store_fast(paths, MemoryBudget::new(budget))
}

fn data(size: usize, quality: QualityTier) -> Arc<ImageData> {
    Arc::new(ImageData::new(vec![1u8; size], 1, 1, quality))
}

fn small_config() -> PreloadConfig {
    let mut c = PreloadConfig::default();
    c.ahead_forward = 3;
    c.behind_forward = 1;
    c.ahead_backward = 1;
    c.behind_backward = 3;
    c.symmetric_range = 2;
    c.full_quality_count = 1;
    c.preview_quality_count = 1;
    c
}

#[test]
fn test_task_priority() {
    let config = PreloadConfig::default();

    // Full quality should be higher priority
    assert!(config.quality_for_distance(1) == QualityTier::Full);
    assert!(config.quality_for_distance(5) == QualityTier::Full);
    assert!(config.quality_for_distance(10) == QualityTier::Preview);
    assert!(config.quality_for_distance(20) == QualityTier::Thumbnail);
}

#[test]
fn preload_test_direction_ranges() {
    let config = PreloadConfig::default();

    // Forward: more ahead
    let (ahead, behind) = config.range_for_direction(Direction::Forward);
    assert!(ahead > behind);

    // Backward: more behind
    let (ahead, behind) = config.range_for_direction(Direction::Backward);
    assert!(behind > ahead);

    // Unknown: symmetric
    let (ahead, behind) = config.range_for_direction(Direction::Unknown);
    assert_eq!(ahead, behind);
}

fn task(index: usize, quality: QualityTier, distance: usize, in_direction: bool) -> LoadTask {
    LoadTask { index, quality, distance, in_direction }
}

#[test]
fn forward_tasks_cover_ahead_and_behind() {
    let store = store_of(10, 1 << 20);
    let config = small_config();
    let tasks = build_prioritized_tasks(&store, 0, 10, Direction::Forward, &config);
    let mut indices: Vec<usize> = tasks.iter().map(|t| t.index).collect();
    assert_eq!(tasks[0].index, 0);
    assert_eq!(tasks[0].quality, QualityTier::Full);
    indices.sort();
    assert_eq!(indices, vec![0, 1, 2, 3, 9]);
    assert_eq!(
        tasks,
        vec![
            task(0, QualityTier::Full, 0, true),
            task(1, QualityTier::Full, 1, true),
            task(2, QualityTier::Preview, 2, true),
            task(3, QualityTier::Thumbnail, 3, true),
            task(9, QualityTier::Full, 1, false),
        ]
    );
}

#[test]
fn backward_and_unknown_task_order() {
    let store = store_of(10, 1 << 20);
    let config = small_config();
    let back = build_prioritized_tasks(&store, 5, 10, Direction::Backward, &config);
    assert_eq!(
        back,
        vec![
            task(5, QualityTier::Full, 0, true),
            task(4, QualityTier::Full, 1, true),
            task(3, QualityTier::Preview, 2, true),
            task(2, QualityTier::Thumbnail, 3, true),
            task(6, QualityTier::Full, 1, false),
        ]
    );
    let unknown = build_prioritized_tasks(&store, 0, 10, Direction::Unknown, &config);
    assert_eq!(
        unknown,
        vec![
            task(0, QualityTier::Full, 0, true),
            task(1, QualityTier::Full, 1, true),
            task(9, QualityTier::Full, 1, true),
            task(2, QualityTier::Preview, 2, true),
            task(8, QualityTier::Preview, 2, true),
        ]
    );
}

#[test]
fn tasks_skip_slots_with_enough_quality() {
    let mut store = store_of(10, 1 << 20);
    let config = small_config();
    assert!(store.insert(0, data(10, QualityTier::Full)));
    assert!(store.insert(2, data(10, QualityTier::Preview)));
    assert!(store.insert(1, data(10, QualityTier::Preview)));
    let tasks = build_prioritized_tasks(&store, 0, 10, Direction::Forward, &config);
    assert_eq!(
        tasks,
        vec![
            task(1, QualityTier::Full, 1, true),
            task(3, QualityTier::Thumbnail, 3, true),
            task(9, QualityTier::Full, 1, false),
        ]
    );
}

#[test]
fn plan_step_decisions() {
    let mut store = store_of(10, 1 << 20);
    let config = small_config();
    let mut state = SharedState::new();
    state.set_total(10);
    match plan_step(&mut store, &state, &config) {
        PreloadAction::Decode(tasks) => assert_eq!(tasks.len(), 4 + 1),
        _ => panic!("expected work"),
    }
    let mut empty = store_of(0, 10);
    assert!(matches!(plan_step(&mut empty, &state, &config), PreloadAction::Idle));
    state.shutdown();
    assert!(matches!(plan_step(&mut store, &state, &config), PreloadAction::Stop));
}

#[test]
fn plan_step_idles_and_evicts_when_all_loaded() {
    let mut store = store_of(3, 1 << 20);
    let mut config = small_config();
    config.ahead_forward = 0;
    config.behind_backward = 0;
    config.symmetric_range = 0;
    let state = SharedState::new();
    assert!(store.insert(0, data(10, QualityTier::Full)));
    assert!(matches!(plan_step(&mut store, &state, &config), PreloadAction::Idle));
    assert_eq!(store.budget().used(), 10);
}

#[test]
fn commit_and_evict_far_images() {
    let mut store = store_of(20, 100);
    let config = small_config();
    assert!(commit_result(&mut store, 10, data(60, QualityTier::Thumbnail), 0, &config));
    // near the current image: room is made by evicting the far one first
    assert!(commit_result(&mut store, 1, data(60, QualityTier::Full), 0, &config));
    assert!(store.slot(10).is_empty());
    assert_eq!(store.budget().used(), 60);
    // far from the current image: no room is made, the insert is refused
    assert!(!commit_result(&mut store, 12, data(60, QualityTier::Thumbnail), 0, &config));
    assert!(commit_result(&mut store, 15, data(40, QualityTier::Thumbnail), 0, &config));
    evict_far_images(&mut store, 0, &config);
    // keep range is max(3, 3) + 5 = 8: slot 15 (distance 5) stays
    assert!(!store.slot(15).is_empty());
    evict_far_images(&mut store, 10, &config);
    assert!(store.slot(1).is_empty());
    assert!(!store.slot(15).is_empty());
    assert_eq!(store.budget().used(), 40);
}
