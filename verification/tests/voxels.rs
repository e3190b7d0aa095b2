use terrain_streaming::field::{FieldSamples, SampleRegion, VoxelSamples};
use terrain_streaming::generate::{generate_voxel, get_voxel, voxel_of_samples};
use terrain_streaming::voxel::{Bounds, Fracu8, SurfaceVoxel, Vertex, Voxel};
use terrain_streaming::voxel_tree::{TreeBody, VoxelTree};

fn sampled(region: SampleRegion, inside: &dyn Fn(i64, i64, i64) -> bool) -> FieldSamples {
    let mut samples = Vec::new();
    let w = region.width as i64;
    for x in 0..w {
        for y in 0..w {
            for z in 0..w {
                samples.push(inside(region.min_x + x, region.min_y + y, region.min_z + z));
            }
        }
    }
    FieldSamples::new(region, samples).unwrap()
}

fn surface(x: u8, y: u8, z: u8, corner: bool) -> Voxel {
    Voxel::Surface(SurfaceVoxel {
        inner_vertex: Vertex { x: Fracu8::of(x), y: Fracu8::of(y), z: Fracu8::of(z) },
        corner_inside_surface: corner,
    })
}

#[test]
fn bounds_and_fractions_keep_what_they_are_given() {
    let b = Bounds::new(1, -2, 3, -4);
    assert_eq!((b.x, b.y, b.z, b.lg_size), (1, -2, 3, -4));
    assert_eq!(Fracu8::of(200).numerator, 200);
}

#[test]
fn world_vertex_is_exact() {
    let v = Vertex { x: Fracu8::of(0), y: Fracu8::of(128), z: Fracu8::of(255) };
    let w = v.to_world_vertex(&Bounds::new(3, -1, 0, 2));
    assert_eq!((w.x, w.y, w.z, w.lg_unit), (768, -128, 255, -6));
}

#[test]
fn two_inside_corners_along_z_pull_the_vertex_onto_their_edge() {
    let region = SampleRegion { lg_unit: -2, min_x: 0, min_y: 0, min_z: 0, width: 5 };
    let field = sampled(region, &|x, y, z| (x, y) == (0, 0) && (z == 0 || z == 4));
    let voxel = generate_voxel(&field, &Bounds::new(0, 0, 0, 0));
    assert_eq!(voxel, surface(0, 0, 127, true));
    match voxel {
        Voxel::Surface(v) => {
            assert!(v.corner_inside_surface);
            assert!(v.inner_vertex.z.numerator > 0);
            assert_eq!(v.inner_vertex.x.numerator, 0);
            assert_eq!(v.inner_vertex.y.numerator, 0);
        },
        Voxel::Volume(_) => panic!("the corners disagree"),
    }
}

#[test]
fn agreeing_corners_make_a_volume() {
    let all_out = VoxelSamples { corners: [false; 8], interior: [true; 8] };
    assert_eq!(voxel_of_samples(&all_out), Voxel::Volume(false));
    let all_in = VoxelSamples { corners: [true; 8], interior: [false; 8] };
    assert_eq!(voxel_of_samples(&all_in), Voxel::Volume(true));
}

#[test]
fn inner_points_weigh_twice_as_much_as_corners() {
    let mut corners = [false; 8];
    corners[7] = true;
    let mut interior = [false; 8];
    interior[0] = true;
    let s = VoxelSamples { corners, interior };
    // (255 + 2 * 64) / 3 along every axis.
    assert_eq!(voxel_of_samples(&s), surface(127, 127, 127, false));

    let mut corners = [false; 8];
    corners[0] = true;
    corners[4] = true;
    let mut interior = [false; 8];
    interior[4] = true;
    interior[5] = true;
    let s = VoxelSamples { corners, interior };
    // x: (255 + 2 * (192 + 192)) / 6; y: (2 * (64 + 64)) / 6; z: (2 * (64 + 192)) / 6.
    assert_eq!(voxel_of_samples(&s), surface(170, 42, 85, true));
}

#[test]
fn field_samples_must_fit_their_region() {
    let region = SampleRegion { lg_unit: -2, min_x: 0, min_y: 0, min_z: 0, width: 2 };
    assert!(FieldSamples::new(region, vec![false; 7]).is_none());
    assert!(FieldSamples::new(region, vec![false; 8]).is_some());
    let wide = SampleRegion { lg_unit: -2, min_x: 0, min_y: 0, min_z: 0, width: 1025 };
    assert!(FieldSamples::new(wide, Vec::new()).is_none());
    let far = SampleRegion { lg_unit: -2, min_x: 1 << 41, min_y: 0, min_z: 0, width: 1 };
    assert!(FieldSamples::new(far, vec![true]).is_none());
    let field = sampled(SampleRegion { lg_unit: 0, min_x: -1, min_y: 5, min_z: 2, width: 3 }, &|x, y, z| {
        x == 0 && y == 6 && z == 4
    });
    assert!(field.contains(0, 6, 4));
    assert!(!field.contains(0, 6, 3));
    assert!(!field.contains(1, 7, 4));
    assert_eq!(field.region().width, 3);
}

#[test]
fn tree_starts_empty_and_keeps_what_is_written() {
    let mut tree = VoxelTree::new();
    let b = Bounds::new(0, 0, 0, 0);
    assert_eq!(tree.lg_size(), 0);
    assert_eq!(tree.get(&b), None);
    assert!(tree.contains_bounds(&b));
    assert!(tree.contains_bounds(&Bounds::new(-1, -1, -1, 0)));
    assert!(!tree.contains_bounds(&Bounds::new(1, 0, 0, 0)));
    assert!(!tree.contains_bounds(&Bounds::new(0, 0, 0, 1)));
    assert!(tree.contains_bounds(&Bounds::new(1, -2, 0, -1)));

    *tree.get_mut_or_create(&b) = TreeBody::Leaf(Voxel::Volume(true));
    assert_eq!(tree.get(&b), Some(Voxel::Volume(true)));
    assert_eq!(tree.get(&Bounds::new(-1, 0, 0, 0)), None);
}

#[test]
fn tree_grows_without_moving_voxels() {
    let mut tree = VoxelTree::new();
    let near = Bounds::new(-1, 0, -1, 0);
    let far = Bounds::new(1000, -37, 5, 0);
    let fine = Bounds::new(3, 3, -4, -2);
    *tree.get_mut_or_create(&near) = TreeBody::Leaf(surface(1, 2, 3, false));
    *tree.get_mut_or_create(&fine) = TreeBody::Leaf(Voxel::Volume(false));
    *tree.get_mut_or_create(&far) = TreeBody::Leaf(Voxel::Volume(true));
    assert_eq!(tree.lg_size(), 10);
    assert_eq!(tree.get(&near), Some(surface(1, 2, 3, false)));
    assert_eq!(tree.get(&fine), Some(Voxel::Volume(false)));
    assert_eq!(tree.get(&far), Some(Voxel::Volume(true)));
    assert_eq!(tree.get(&Bounds::new(1000, -37, 6, 0)), None);
    assert_eq!(tree.get(&Bounds::new(999, -37, 5, 0)), None);
    tree.grow_to_hold(&Bounds::new(i32::MIN, i32::MAX, 0, 16));
    assert_eq!(tree.lg_size(), 47);
    assert_eq!(tree.get(&far), Some(Voxel::Volume(true)));
    assert_eq!(tree.get(&near), Some(surface(1, 2, 3, false)));
}

#[test]
fn a_slot_that_is_not_there_reads_as_empty() {
    let mut tree = VoxelTree::new();
    match tree.get_mut_or_create(&Bounds::new(7, 7, 7, 1)) {
        TreeBody::Empty => {},
        _ => panic!("nothing was stored there"),
    }
    assert_eq!(tree.lg_size(), 4);
}

#[test]
fn a_leaf_gives_way_to_finer_voxels_and_a_branch_to_a_leaf() {
    let mut tree = VoxelTree::new();
    let coarse = Bounds::new(0, 0, 0, 1);
    let fine = Bounds::new(1, 1, 1, 0);
    *tree.get_mut_or_create(&coarse) = TreeBody::Leaf(Voxel::Volume(true));
    *tree.get_mut_or_create(&fine) = TreeBody::Leaf(Voxel::Volume(false));
    assert_eq!(tree.get(&fine), Some(Voxel::Volume(false)));
    assert_eq!(tree.get(&coarse), None);
    *tree.get_mut_or_create(&coarse) = TreeBody::Leaf(Voxel::Volume(true));
    assert_eq!(tree.get(&coarse), Some(Voxel::Volume(true)));
    assert_eq!(tree.get(&fine), None);
}

#[test]
fn get_voxel_generates_once_and_then_reads_the_tree() {
    let region = SampleRegion { lg_unit: -2, min_x: -4, min_y: -4, min_z: -4, width: 13 };
    let field = sampled(region, &|_, y, _| y <= 0);
    let mut tree = VoxelTree::new();
    let b = Bounds::new(0, 0, 0, 0);
    let generated = get_voxel(&mut tree, &field, &b);
    assert_eq!(generated, surface(127, 0, 127, true));
    assert_eq!(tree.get(&b), Some(generated));

    let other = Bounds::new(-1, 0, 1, 0);
    *tree.get_mut_or_create(&other) = TreeBody::Leaf(Voxel::Volume(true));
    assert_eq!(get_voxel(&mut tree, &field, &other), Voxel::Volume(true));
    assert_eq!(get_voxel(&mut tree, &field, &Bounds::new(0, -1, 0, 0)), Voxel::Volume(true));
    assert_eq!(get_voxel(&mut tree, &field, &Bounds::new(0, 1, 0, 0)), Voxel::Volume(false));
}
