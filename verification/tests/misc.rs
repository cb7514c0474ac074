use quartz::item::item_info::ToolLevel;
use quartz::qutil::threadpool::DistributionStrategy;
use quartz::world::location::{BlockPosition, CoordinatePair};
use quartz::worldgen::density_function::{DensityFunctionRef, RarityValueMapper};

#[test]
fn tool_durabilities() {
    assert_eq!(ToolLevel::Wood.max_durability(), 59);
    assert_eq!(ToolLevel::Gold.max_durability(), 32);
    assert_eq!(ToolLevel::Stone.max_durability(), 131);
    assert_eq!(ToolLevel::Iron.max_durability(), 250);
    assert_eq!(ToolLevel::Diamond.max_durability(), 1561);
    assert_eq!(ToolLevel::Netherite.max_durability(), 2031);
}

#[test]
fn coordinates_scale() {
    let p = CoordinatePair { x: 3, z: -4 };
    assert_eq!(p.scaled_up(16), CoordinatePair { x: 48, z: -64 });
    let b = BlockPosition { x: 1, y: 2, z: 3 };
    assert_eq!(b, BlockPosition { x: 1, y: 2, z: 3 });
}

#[test]
fn rarity_names() {
    assert_eq!(RarityValueMapper::Type1.name(), "type_1");
    assert_eq!(RarityValueMapper::Type2.name(), "type_2");
    assert_eq!(DensityFunctionRef(3), DensityFunctionRef(3));
    assert_ne!(DistributionStrategy::EqualLoad, DistributionStrategy::Fast);
}

use quartz::qutil::threadpool::{choose_worker, target_size};

#[test]
fn equal_load_picks_first_least_loaded() {
    assert_eq!(choose_worker(&vec![3, 0, 1], DistributionStrategy::EqualLoad, 5), (Some(1), 5));
    assert_eq!(choose_worker(&vec![3, 2, 2], DistributionStrategy::EqualLoad, 0), (Some(1), 0));
    assert_eq!(choose_worker(&vec![], DistributionStrategy::EqualLoad, 0), (None, 0));
    assert_eq!(choose_worker(&vec![usize::MAX], DistributionStrategy::EqualLoad, 0), (None, 0));
}

#[test]
fn fast_strategy_takes_turns() {
    assert_eq!(choose_worker(&vec![9, 9, 9], DistributionStrategy::Fast, 2), (Some(2), 3));
    assert_eq!(choose_worker(&vec![9, 9, 9], DistributionStrategy::Fast, 3), (Some(0), 1));
    assert_eq!(choose_worker(&vec![], DistributionStrategy::Fast, 0), (None, 1));
}

#[test]
fn pool_sizes_follow_load() {
    assert_eq!(target_size(&vec![10, 5], 4, 2, 8), 3);
    assert_eq!(target_size(&vec![], 4, 0, 0), 1);
    assert_eq!(target_size(&vec![100], 1, 2, 5), 5);
    assert_eq!(target_size(&vec![1], 10, 3, 1), 3);
}
