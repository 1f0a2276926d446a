use fiv::config::QualityTier;
use fiv::slot::{ImageData, ImageMeta};
use fiv::store::{circular_distance, indices_around, ImageStore, MemoryBudget};
use std::path::PathBuf;
use std::sync::Arc;

fn data(size: usize, quality: QualityTier) -> Arc<ImageData> {
    Arc::new(ImageData::new(vec![7u8; size], 1, 1, quality))
}

fn store_of(n: usize, budget: usize) -> ImageStore {
    let paths: Vec<PathBuf> = (0..n).map(|i| PathBuf::from(format!("{}.png", i))).collect();
    ImageStore::new(paths, MemoryBudget::new(budget))
}

#[test]
fn test_circular_distance() {
    assert_eq!(circular_distance(0, 0, 10), 0);
    assert_eq!(circular_distance(0, 1, 10), 1);
    assert_eq!(circular_distance(0, 5, 10), 5);
    assert_eq!(circular_distance(0, 9, 10), 1); // Wrap around
    assert_eq!(circular_distance(9, 0, 10), 1);
    assert_eq!(circular_distance(3, 7, 10), 4);
}

#[test]
fn test_indices_around() {
    let indices: Vec<_> = indices_around(5, 10, 2);
    // Should be: (5,0), (6,1), (4,1), (7,2), (3,2)
    assert_eq!(indices.len(), 5);
    assert_eq!(indices[0], (5, 0));
    assert!(indices.contains(&(6, 1)));
    assert!(indices.contains(&(4, 1)));
    assert!(indices.contains(&(7, 2)));
    assert!(indices.contains(&(3, 2)));
}

#[test]
fn test_budget() {
    let mut budget = MemoryBudget::new(1000);

    assert!(budget.try_allocate(500));
    assert_eq!(budget.used(), 500);

    assert!(budget.try_allocate(400));
    assert_eq!(budget.used(), 900);

    assert!(!budget.try_allocate(200)); // Would exceed
    assert_eq!(budget.used(), 900);

    budget.release(300);
    assert_eq!(budget.used(), 600);

    assert!(budget.try_allocate(200)); // Now fits
    assert_eq!(budget.used(), 800);
}

#[test]
fn circular_distance_symmetric_and_zero_only_when_equal() {
    for total in 1..12usize {
        for a in 0..total {
            for b in 0..total {
                let d = circular_distance(a, b, total);
                assert_eq!(d, circular_distance(b, a, total));
                assert_eq!(d == 0, a == b);
                let gap = if a > b { a - b } else { b - a };
                assert_eq!(d, gap.min(total - gap));
            }
        }
    }
    assert_eq!(circular_distance(3, 4, 0), 0);
}

#[test]
fn indices_around_wraps_and_meets() {
    assert_eq!(indices_around(0, 4, 2), vec![(0, 0), (1, 1), (3, 1), (2, 2)]);
    assert_eq!(indices_around(12, 10, 0), vec![(2, 0)]);
    assert_eq!(indices_around(0, 1, 1), vec![(0, 0), (0, 1)]);
}

#[test]
fn budget_edges() {
    let mut budget = MemoryBudget::new(10);
    assert_eq!(budget.total(), 10);
    assert_eq!(budget.available(), 10);
    assert!(budget.try_allocate(10));
    assert_eq!(budget.available(), 0);
    assert!(!budget.try_allocate(1));
    assert!(budget.try_allocate(0));
    budget.release(10);
    assert_eq!(budget.used(), 0);
    let mut huge = MemoryBudget::new(usize::MAX);
    assert!(huge.try_allocate(usize::MAX));
    assert!(!huge.try_allocate(1));
}

#[test]
fn store_shape_and_lookup() {
    let store = store_of(3, 1000);
    assert_eq!(store.len(), 3);
    assert!(!store.is_empty());
    assert_eq!(store.get(4).unwrap().meta.path, PathBuf::from("1.png"));
    assert_eq!(store.slot(2).meta.path, PathBuf::from("2.png"));
    assert_eq!(store.slot(2).meta.original_width, 0);
    assert!(store.read(0).is_none());
    assert_eq!(store.quality_at(0), None);
    assert_eq!(store.iter().len(), 3);
    let pairs = store.iter_enumerated();
    assert_eq!(pairs.len(), 3);
    assert_eq!(pairs[1].0, 1);
    assert_eq!(pairs[1].1.meta.path, PathBuf::from("1.png"));

    let empty = store_of(0, 1000);
    assert!(empty.is_empty());
    assert!(empty.get(0).is_none());
    assert!(empty.read(5).is_none());
}

#[test]
fn store_with_metadata_keeps_order() {
    let metas = vec![
        ImageMeta::new(PathBuf::from("a.jpg"), 10, 20),
        ImageMeta::new(PathBuf::from("b.jpg"), 30, 40),
    ];
    let store = ImageStore::with_metadata(metas, MemoryBudget::new(5));
    assert_eq!(store.slot(0).meta.path, PathBuf::from("a.jpg"));
    assert_eq!(store.slot(1).meta.original_height, 40);
    assert_eq!(store.budget().total(), 5);
}

#[test]
fn insert_charges_net_growth() {
    let mut store = store_of(3, 1000);
    assert!(store.insert(1, data(100, QualityTier::Thumbnail)));
    assert_eq!(store.budget().used(), 100);
    assert_eq!(store.quality_at(1), Some(QualityTier::Thumbnail));
    assert!(store.insert(4, data(300, QualityTier::Full)));
    assert_eq!(store.budget().used(), 300);
    assert_eq!(store.read(1).unwrap().quality, QualityTier::Full);
    assert_eq!(store.total_memory_used(), 300);
}

#[test]
fn insert_refused_upgrade_is_budget_neutral() {
    let mut store = store_of(2, 1000);
    assert!(store.insert(0, data(100, QualityTier::Full)));
    let before = store.budget().used();
    assert!(!store.insert(0, data(500, QualityTier::Preview)));
    assert_eq!(store.budget().used(), before);
    assert!(!store.insert(0, data(50, QualityTier::Full)));
    assert_eq!(store.budget().used(), before);
    assert_eq!(store.quality_at(0), Some(QualityTier::Full));
}

#[test]
fn insert_refused_when_budget_is_short() {
    let mut store = store_of(2, 150);
    assert!(store.insert(0, data(100, QualityTier::Thumbnail)));
    assert!(!store.insert(1, data(100, QualityTier::Thumbnail)));
    assert_eq!(store.budget().used(), 100);
    assert_eq!(store.quality_at(1), None);
    // growth of 50 on slot 0 fits exactly
    assert!(store.insert(0, data(150, QualityTier::Preview)));
    assert_eq!(store.budget().used(), 150);
    // a smaller, better image gives bytes back
    assert!(store.insert(0, data(20, QualityTier::Full)));
    assert_eq!(store.budget().used(), 20);
}

#[test]
fn insert_into_empty_store_is_refused() {
    let mut store = store_of(0, 100);
    assert!(!store.insert(3, data(10, QualityTier::Full)));
    assert_eq!(store.budget().used(), 0);
}

#[test]
fn evict_far_clears_only_far_slots() {
    let mut store = store_of(10, 10_000);
    for i in 0..10 {
        assert!(store.insert(i, data(10 * (i + 1), QualityTier::Thumbnail)));
    }
    let used = store.budget().used();
    // from 0 with range 2, slots 3..=7 are far: 40+50+60+70+80
    let freed = store.evict_far(0, 2);
    assert_eq!(freed, 300);
    assert_eq!(store.budget().used(), used - 300);
    for i in 0..10 {
        let far = circular_distance(i, 0, 10) > 2;
        assert_eq!(store.slot(i).is_empty(), far);
    }
    assert_eq!(store.evict_far(0, 2), 0);
    assert_eq!(store_of(0, 10).evict_far(0, 0), 0);
}

#[test]
fn make_room_evicts_furthest_first_and_stops() {
    let mut store = store_of(10, 100);
    for i in [1usize, 2, 5, 6, 9] {
        assert!(store.insert(i, data(20, QualityTier::Thumbnail)));
    }
    assert_eq!(store.budget().available(), 0);
    // nothing needed: nothing evicted
    assert_eq!(store.make_room(0, 0), 0);
    // from 0: distances 1,2,5,4,1 -> 5 goes first, then 6
    assert_eq!(store.make_room(30, 0), 40);
    assert!(store.slot(5).is_empty());
    assert!(store.slot(6).is_empty());
    assert!(!store.slot(2).is_empty());
    assert!(!store.slot(1).is_empty());
    assert!(!store.slot(9).is_empty());
    assert_eq!(store.budget().available(), 40);
    // ties (1 and 9 are both at distance 1) go by lower index, after 2
    assert_eq!(store.make_room(80, 0), 40);
    assert!(store.slot(2).is_empty());
    assert!(store.slot(1).is_empty());
    assert!(!store.slot(9).is_empty());
    // more than can be freed: everything goes
    assert_eq!(store.make_room(1000, 0), 20);
    assert_eq!(store.total_memory_used(), 0);
}
