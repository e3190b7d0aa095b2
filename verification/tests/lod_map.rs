use terrain_streaming::block_position::BlockPosition;
use terrain_streaming::entity::EntityId;
use terrain_streaming::id_allocator::IdAllocator;
use terrain_streaming::lod::{LODIndex, LODMap, LodChange, OwnerId, LOD};

fn lod(i: u32) -> LOD {
    LOD::LodIndex(LODIndex(i))
}

#[test]
fn insert_reports_only_changes_of_the_greatest_demand() {
    let mut map = LODMap::new();
    let p = BlockPosition::new(0, 0, 0);
    let owner_a = OwnerId(1);
    let owner_b = OwnerId(2);

    let (prev, change) = map.insert(p, lod(2), owner_a);
    assert_eq!(prev, None);
    assert_eq!(change, Some(LodChange { desired: Some(lod(2)), loaded: None }));

    let (prev, change) = map.insert(p, lod(0), owner_b);
    assert_eq!(prev, None);
    assert_eq!(change, None);

    let (prev, change) = map.insert(p, lod(3), owner_b);
    assert_eq!(prev, Some(lod(0)));
    assert_eq!(change, Some(LodChange { desired: Some(lod(3)), loaded: None }));
}

#[test]
fn placeholder_is_the_least_demand() {
    assert!(LOD::Placeholder < lod(0));
    assert!(lod(0) < lod(1));
    assert!(lod(1).at_least(&LOD::Placeholder));
    assert!(!LOD::Placeholder.at_least(&lod(0)));
    assert!(lod(2).at_least(&lod(2)));
    assert_eq!(LOD::Placeholder.rank(), 0);
    assert_eq!(lod(3).rank(), 4);

    let mut map = LODMap::new();
    let p = BlockPosition::new(4, -2, 9);
    let (_, change) = map.insert(p, LOD::Placeholder, OwnerId(7));
    assert_eq!(change, Some(LodChange { desired: Some(LOD::Placeholder), loaded: None }));
    let (_, change) = map.insert(p, lod(0), OwnerId(8));
    assert_eq!(change, Some(LodChange { desired: Some(lod(0)), loaded: None }));
    assert_eq!(map.get_desired(&p), Some(lod(0)));
}

#[test]
fn desired_is_the_greatest_request_after_any_sequence() {
    let mut map = LODMap::new();
    let p = BlockPosition::new(1, 2, 3);
    map.insert(p, lod(1), OwnerId(1));
    map.insert(p, lod(3), OwnerId(2));
    map.insert(p, lod(2), OwnerId(3));
    assert_eq!(map.get_desired(&p), Some(lod(3)));
    map.insert(p, lod(0), OwnerId(2));
    assert_eq!(map.get_desired(&p), Some(lod(2)));
    map.remove(p, OwnerId(3));
    assert_eq!(map.get_desired(&p), Some(lod(1)));
    map.remove(p, OwnerId(1));
    assert_eq!(map.get_desired(&p), Some(lod(0)));
    map.remove(p, OwnerId(2));
    assert_eq!(map.get_desired(&p), None);
}

#[test]
fn get_lists_the_requests_in_the_order_of_first_asking() {
    let mut map = LODMap::new();
    let p = BlockPosition::new(0, 0, 0);
    map.insert(p, lod(1), OwnerId(5));
    map.insert(p, lod(1), OwnerId(3));
    map.insert(p, lod(2), OwnerId(5));
    let (mine, all) = map.get(&p, OwnerId(3));
    assert_eq!(mine, Some(lod(1)));
    assert_eq!(all, &[(OwnerId(5), lod(2)), (OwnerId(3), lod(1))]);
    let (mine, all) = map.get(&p, OwnerId(9));
    assert_eq!(mine, None);
    assert_eq!(all.len(), 2);
    let (mine, all) = map.get(&BlockPosition::new(1, 0, 0), OwnerId(5));
    assert_eq!(mine, None);
    assert!(all.is_empty());
}

#[test]
fn remove_reports_the_change_and_forgets_the_block_with_its_last_owner() {
    let mut map = LODMap::new();
    let p = BlockPosition::new(0, 0, 0);
    map.insert(p, lod(2), OwnerId(1));
    map.insert(p, lod(1), OwnerId(2));
    assert_eq!(
        map.set_loaded(p, lod(2)),
        Some(LodChange { desired: Some(lod(2)), loaded: None })
    );

    let (prev, change) = map.remove(p, OwnerId(9));
    assert_eq!((prev, change), (None, None));

    let (prev, change) = map.remove(p, OwnerId(1));
    assert_eq!(prev, Some(lod(2)));
    assert_eq!(change, Some(LodChange { desired: Some(lod(1)), loaded: Some(lod(2)) }));
    assert_eq!(map.get_loaded(&p), Some(lod(2)));

    let (prev, change) = map.remove(p, OwnerId(2));
    assert_eq!(prev, Some(lod(1)));
    assert_eq!(change, Some(LodChange { desired: None, loaded: Some(lod(2)) }));
    assert_eq!(map.get_loaded(&p), None);
    assert_eq!(map.get_desired(&p), None);

    let (prev, change) = map.remove(p, OwnerId(2));
    assert_eq!((prev, change), (None, None));
}

#[test]
fn inserting_the_same_request_twice_changes_nothing_the_second_time() {
    let mut map = LODMap::new();
    let p = BlockPosition::new(3, 3, 3);
    let (_, first) = map.insert(p, lod(1), OwnerId(1));
    assert!(first.is_some());
    let (prev, second) = map.insert(p, lod(1), OwnerId(1));
    assert_eq!(prev, Some(lod(1)));
    assert_eq!(second, None);
    assert_eq!(map.get(&p, OwnerId(1)).1, &[(OwnerId(1), lod(1))]);
}

#[test]
fn set_loaded_takes_only_the_demand_that_is_to_load() {
    let mut map = LODMap::new();
    let p = BlockPosition::new(0, 1, 0);
    assert_eq!(map.set_loaded(p, lod(0)), None);
    map.insert(p, lod(1), OwnerId(1));
    assert_eq!(map.set_loaded(p, lod(0)), None);
    assert_eq!(map.get_loaded(&p), None);
    assert_eq!(
        map.set_loaded(p, lod(1)),
        Some(LodChange { desired: Some(lod(1)), loaded: None })
    );
    assert_eq!(map.get_loaded(&p), Some(lod(1)));
    assert_eq!(map.set_loaded(p, lod(1)), None);
    assert_eq!(map.clear_loaded(p), Some(lod(1)));
    assert_eq!(map.get_loaded(&p), None);
    assert_eq!(map.clear_loaded(p), None);
}

#[test]
fn blocks_are_arbitrated_apart() {
    let mut map = LODMap::new();
    let p = BlockPosition::new(0, 0, 0);
    let q = BlockPosition::new(0, 0, 1);
    let r = BlockPosition::new(-1, 0, 0);
    map.insert(p, lod(3), OwnerId(1));
    let (_, change) = map.insert(q, lod(1), OwnerId(1));
    assert_eq!(change, Some(LodChange { desired: Some(lod(1)), loaded: None }));
    assert_eq!(map.get_desired(&p), Some(lod(3)));
    assert_eq!(map.get_desired(&q), Some(lod(1)));
    assert_eq!(map.get_desired(&r), None);
    assert_ne!(p.key(), q.key());
    assert_ne!(p.key(), r.key());
    assert_eq!(BlockPosition::new(i32::MIN, i32::MIN, i32::MIN).key(), 0);
    assert_eq!(p.key(), (1u128 << 95) + (1u128 << 63) + (1u128 << 31));
}

#[test]
fn entities_are_numbered_from_zero() {
    assert_eq!(EntityId::default(), EntityId(0));
    assert_eq!(EntityId(3) + 4, EntityId(7));
    let mut ids = IdAllocator::new();
    assert_eq!(ids.next(), 0);
    assert_eq!(ids.allocate(), 0);
    assert_eq!(ids.allocate(), 1);
    assert_eq!(ids.next(), 2);
    assert!(ids.has_remaining(u32::MAX - 2));
    assert!(!ids.has_remaining(u32::MAX - 1));
}

#[test]
fn positions_offset_by_components() {
    let p = BlockPosition::new(1, -2, 3).offset(-1, 2, 10);
    assert_eq!((p.x, p.y, p.z), (0, 0, 13));
}
