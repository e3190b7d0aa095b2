use terrain_streaming::block_position::BlockPosition;
use terrain_streaming::cube_shell::{cube_diff, cube_shell};
use terrain_streaming::surroundings_iter::SurroundingsIter;
use terrain_streaming::surroundings_loader::{radius_between, GetLODChanges, LODChange, SurroundingsLoader};

fn p(x: i32, y: i32, z: i32) -> BlockPosition {
    BlockPosition::new(x, y, z)
}

#[test]
fn radius_between_is_the_greatest_difference_along_an_axis() {
    assert_eq!(radius_between(&p(0, 0, 0), &p(0, 0, 0)), 0);
    assert_eq!(radius_between(&p(1, -5, 2), &p(3, 2, 2)), 7);
    assert_eq!(radius_between(&p(-4, 0, 0), &p(4, 1, 1)), 8);
    assert_eq!(radius_between(&p(0, 0, 9), &p(0, 0, -9)), 18);
}

#[test]
fn shell_of_radius_zero_is_the_centre() {
    assert_eq!(cube_shell(&p(3, -4, 5), 0), vec![p(3, -4, 5)]);
    assert!(cube_shell(&p(3, -4, 5), -1).is_empty());
}

#[test]
fn shell_holds_every_position_at_the_radius_once() {
    let center = p(2, 0, -3);
    for radius in 1..5 {
        let shell = cube_shell(&center, radius);
        let side = (2 * radius + 1) as usize;
        let inner = (2 * radius - 1) as usize;
        assert_eq!(shell.len(), side * side * side - inner * inner * inner);
        for q in shell.iter() {
            assert_eq!(radius_between(&center, q), radius);
        }
        let mut sorted: Vec<(i32, i32, i32)> = shell.iter().map(|q| (q.x, q.y, q.z)).collect();
        let in_order = sorted.clone();
        sorted.sort();
        sorted.dedup();
        assert_eq!(sorted, in_order);
    }
}

#[test]
fn diff_holds_the_positions_on_exactly_one_shell() {
    let from = p(2, 0, -3);
    let to = p(1, 2, -3);
    let radius = 2;
    let diff = cube_diff(&from, &to, radius);
    let mut expected = Vec::new();
    for q in cube_shell(&from, radius) {
        if radius_between(&to, &q) != radius {
            expected.push(q);
        }
    }
    for q in cube_shell(&to, radius) {
        if radius_between(&from, &q) != radius {
            expected.push(q);
        }
    }
    assert_eq!(diff, expected);
    for (i, a) in diff.iter().enumerate() {
        for b in diff.iter().skip(i + 1) {
            assert_ne!(a, b);
        }
    }
    assert!(cube_diff(&from, &from, radius).is_empty());
}

#[test]
fn iterator_gives_the_surroundings_nearest_first() {
    let center = p(0, 0, 0);
    let mut it = SurroundingsIter::new(center, 2);
    let mut seen = Vec::new();
    let mut last_distance = 0;
    while let Some((q, d)) = it.next() {
        assert_eq!(radius_between(&center, &q), d);
        assert!(d >= last_distance);
        last_distance = d;
        assert!(!seen.contains(&q));
        seen.push(q);
    }
    assert_eq!(seen.len(), 125);
    assert_eq!(seen[0], center);
    assert_eq!(it.next(), None);
}

#[test]
fn first_update_loads_the_whole_cube() {
    let mut loader = SurroundingsLoader::new(1, Vec::new());
    let changes = loader.update(p(0, 0, 0), usize::MAX);
    assert_eq!(changes.len(), 27);
    let mut positions = Vec::new();
    for change in changes.iter() {
        match change {
            LODChange::Load(q, d) => {
                if *q == p(0, 0, 0) {
                    assert_eq!(*d, 0);
                } else {
                    assert_eq!(*d, 1);
                }
                assert!(q.x.abs() <= 1 && q.y.abs() <= 1 && q.z.abs() <= 1);
                assert!(!positions.contains(q));
                positions.push(*q);
            },
            LODChange::Unload(_) => panic!("nothing is released by the first update"),
        }
    }
    assert_eq!(changes[0], LODChange::Load(p(0, 0, 0), 0));
    assert!(loader.update(p(0, 0, 0), usize::MAX).is_empty());
}

#[test]
fn a_step_releases_the_plane_behind_and_acquires_the_plane_ahead() {
    let mut loader = SurroundingsLoader::new(1, Vec::new());
    loader.update(p(0, 0, 0), usize::MAX);
    let changes = loader.update(p(1, 0, 0), usize::MAX);
    let recheck = &changes[..20];
    for y in -1..=1 {
        for z in -1..=1 {
            assert!(recheck.contains(&LODChange::Unload(p(-1, y, z))));
            assert!(recheck.contains(&LODChange::Load(p(2, y, z), 1)));
        }
    }
    assert!(recheck.contains(&LODChange::Load(p(1, 0, 0), 0)));
    assert!(recheck.contains(&LODChange::Load(p(0, 0, 0), 1)));
    let unloads = changes.iter().filter(|c| matches!(c, LODChange::Unload(_))).count();
    assert_eq!(unloads, 9);
    assert_eq!(changes.len(), 20 + 27);
    for change in changes[20..].iter() {
        match change {
            LODChange::Load(q, d) => assert_eq!(radius_between(&p(1, 0, 0), q), *d),
            LODChange::Unload(_) => panic!("the surroundings of the new centre are acquired"),
        }
    }
}

#[test]
fn a_step_mentions_exactly_the_two_ranges() {
    let mut loader = SurroundingsLoader::new(2, vec![1]);
    loader.update(p(5, 5, 5), usize::MAX);
    let changes = loader.update(p(5, 6, 5), usize::MAX);
    for x in 0..11 {
        for y in 0..12 {
            for z in 0..11 {
                let q = p(x, y, z);
                let near = radius_between(&p(5, 5, 5), &q) <= 2 || radius_between(&p(5, 6, 5), &q) <= 2;
                let mentioned = changes.iter().any(|c| c.position() == q);
                assert_eq!(near, mentioned);
            }
        }
    }
}

#[test]
fn the_budget_bounds_the_work_and_the_rest_stays_due() {
    let mut loader = SurroundingsLoader::new(1, Vec::new());
    let first = loader.update(p(0, 0, 0), 10);
    assert_eq!(first.len(), 10);
    let none = loader.update(p(0, 0, 0), 0);
    assert!(none.is_empty());
    let rest = loader.update(p(0, 0, 0), 100);
    assert_eq!(rest.len(), 17);
    let mut whole = SurroundingsLoader::new(1, Vec::new());
    let all = whole.update(p(0, 0, 0), usize::MAX);
    let mut joined = first.clone();
    joined.extend(rest.iter().cloned());
    assert_eq!(joined, all);
}

#[test]
fn changes_can_be_taken_one_by_one() {
    let mut loader = SurroundingsLoader::new(1, Vec::new());
    assert_eq!(loader.next_change(), None);
    loader.set_position(p(0, 0, 0));
    assert_eq!(loader.next_change(), Some(LODChange::Load(p(0, 0, 0), 0)));
    assert_eq!(loader.next_change(), Some(LODChange::Load(p(-1, -1, -1), 1)));
    loader.set_position(p(0, 0, 3));
    assert_eq!(loader.next_change(), Some(LODChange::Unload(p(-1, -1, -1))));
}

#[test]
fn lod_at_finds_the_smallest_threshold_that_reaches() {
    let loader = SurroundingsLoader::new(40, vec![2, 16, 32]);
    assert_eq!(loader.lod_at(0), 0);
    assert_eq!(loader.lod_at(2), 0);
    assert_eq!(loader.lod_at(3), 1);
    assert_eq!(loader.lod_at(16), 1);
    assert_eq!(loader.lod_at(17), 2);
    assert_eq!(loader.lod_at(33), 3);
    let unordered = SurroundingsLoader::new(40, vec![9, 4, 4, 7]);
    assert_eq!(unordered.lod_at(3), 1);
    assert_eq!(unordered.lod_at(5), 3);
    assert_eq!(unordered.lod_at(8), 0);
    assert_eq!(unordered.lod_at(10), 4);
}

#[test]
fn a_jump_leaves_the_inside_of_the_old_range_alone() {
    let mut loader = SurroundingsLoader::new(2, Vec::new());
    loader.update(p(0, 0, 0), usize::MAX);
    let changes = loader.update(p(3, 0, 0), usize::MAX);
    // On the old shell and out of the new range: released.
    assert!(changes.contains(&LODChange::Unload(p(-2, 0, 0))));
    // Strictly inside the old range and out of the new one: not looked at again.
    assert!(!changes.iter().any(|c| c.position() == p(-1, 0, 0)));
    // With a threshold at that distance, it is.
    let mut loader = SurroundingsLoader::new(2, vec![1]);
    loader.update(p(0, 0, 0), usize::MAX);
    let changes = loader.update(p(3, 0, 0), usize::MAX);
    assert!(changes.contains(&LODChange::Unload(p(-1, 0, 0))));
}

fn changes_between<F: GetLODChanges>(mut changes: F, last: &BlockPosition, current: &BlockPosition) -> Vec<BlockPosition> {
    changes(last, current)
}

#[test]
fn a_closure_can_tell_which_blocks_to_look_at_again() {
    let placeholders = |last: &BlockPosition, current: &BlockPosition| cube_diff(last, current, 1);
    let changes = changes_between(placeholders, &p(0, 0, 0), &p(0, 0, 1));
    assert_eq!(changes.len(), 20);
    assert!(changes.contains(&p(1, 1, -1)));
    assert!(changes.contains(&p(-1, 0, 2)));
}
