//! The world's terrain, generated lazily and kept for good.

use crate::block_position::BlockPosition;
use crate::field::FieldSamples;
use crate::generate::{generate_block, is_mesh_of, padded};
use crate::mesh::{
    covers_block, max_block_triangles, mesh_ready, spec_block_touched, spec_block_triangles, triangle_in_range,
};
use crate::mesher::is_mesh_ready;
use crate::stored::{filled, keeps, read_alike};
use crate::id_allocator::IdAllocator;
use crate::lod::LODIndex;
use crate::terrain_block::{spec_lg_sample_size, TerrainBlock, TerrainBlockView, NUM_LODS};
use crate::tree_placer::TreePlacer;
use crate::voxel::{Bounds, Voxel};
use crate::voxel_tree::{TreeBody, VoxelTree, MAX_LG_SIZE, MIN_LG_SIZE};
use std::collections::HashMap;
use vstd::prelude::*;

verus! {

broadcast use vstd::std_specs::hash::group_hash_axioms;

/// The greatest height of the terrain above and below the zero plane, in
/// world units.
pub const AMPLITUDE: i32 = 64;

/// The wavelength of the coarsest octave of the terrain, in world units.
pub const WAVELENGTH: u32 = 64;

/// How many times weaker every octave is than the one before.
pub const PERSISTENCE_INVERSE: u32 = 16;

/// How many times finer every octave is than the one before.
pub const LACUNARITY: u32 = 8;

/// The number of octaves of the terrain.
pub const OCTAVES: usize = 2;

/// What the ground is made of.
#[derive(Debug, Copy, Clone, PartialEq, Eq, Hash, Structural)]
pub enum TerrainType {
    Grass,
    Dirt,
    Stone,
    Wood,
    Leaf,
}

/// The meshes of one block, by level of detail. A mesh that has not been
/// asked for yet is not there.
pub struct TerrainMipMesh {
    pub lods: Vec<Option<TerrainBlock>>,
}

/// This struct contains and lazily generates the world's terrain.
pub struct Terrain {
    terrain_seed: u32,
    treemap: TreePlacer,
    voxels: VoxelTree,
    // all the blocks that have ever been created.
    all_blocks: HashMap<u128, TerrainMipMesh>,
}

impl Terrain {
    /// The tree of voxels is well formed.
    pub closed spec fn wf(self) -> bool {
        self.voxels.wf()
    }

    /// The seed of the field.
    pub closed spec fn spec_terrain_seed(self) -> u32 {
        self.terrain_seed
    }

    /// What places the trees.
    pub closed spec fn spec_treemap(self) -> TreePlacer {
        self.treemap
    }

    /// The voxels that have been generated so far.
    pub closed spec fn spec_voxels(self) -> VoxelTree {
        self.voxels
    }

    /// The mesh that is kept for a block at a level of detail, if any.
    pub closed spec fn cached(self, position: BlockPosition, lod: LODIndex) -> Option<TerrainBlockView> {
        if self.all_blocks@.contains_key(position.spec_key()) && lod.0 < self.all_blocks@[position.spec_key()].lods@.len() {
            match self.all_blocks@[position.spec_key()].lods@[lod.0 as int] {
                Some(block) => Some(block@),
                None => None,
            }
        } else {
            None
        }
    }

    /// Whether two terrains keep the same meshes, but for the one of a
    /// block at a level of detail.
    pub open spec fn same_cache_elsewhere(self, other: Terrain, position: BlockPosition, lod: LODIndex) -> bool {
        forall|p: BlockPosition, l: LODIndex|
            p != position || l != lod ==> #[trigger] self.cached(p, l) == other.cached(p, l)
    }

    /// A terrain of which nothing has been generated yet.
    pub fn new(terrain_seed: u32, tree_seed: u32) -> (t: Terrain)
        ensures
            t.wf(),
            t.spec_terrain_seed() == terrain_seed,
            t.spec_treemap().spec_seed() == tree_seed,
            forall|p: BlockPosition, l: LODIndex| #[trigger] t.cached(p, l) is None,
            forall|b: Bounds| #[trigger] t.spec_voxels().leaf(b) is None,
            forall|b: Bounds| #[trigger] t.spec_voxels().slot_of(b) == TreeBody::Empty,
            t.spec_voxels().spec_lg_size() == 0,
    {
        Terrain {
            terrain_seed,
            treemap: TreePlacer::new(tree_seed),
            voxels: VoxelTree::new(),
            all_blocks: HashMap::new(),
        }
    }

    /// The seed of the field.
    pub fn terrain_seed(&self) -> (seed: u32)
        ensures
            seed == self.spec_terrain_seed(),
    {
        self.terrain_seed
    }

    /// What places the trees.
    pub fn treemap(&self) -> (treemap: &TreePlacer)
        ensures
            *treemap == self.spec_treemap(),
    {
        &self.treemap
    }

    /// The voxel that has been generated for exactly these bounds, if any.
    pub fn voxel(&self, bounds: &Bounds) -> (v: Option<Voxel>)
        requires
            self.wf(),
            MIN_LG_SIZE <= bounds.lg_size <= MAX_LG_SIZE,
        ensures
            v == self.spec_voxels().leaf(*bounds),
    {
        self.voxels.get(bounds)
    }

    /// The mesh that is kept for a block at a level of detail, if any.
    pub fn get(&self, position: &BlockPosition, lod_index: LODIndex) -> (block: Option<&TerrainBlock>)
        ensures
            match block {
                Some(b) => self.cached(*position, lod_index) == Some(b@),
                None => self.cached(*position, lod_index) is None,
            },
    {
        let key = position.key();
        match self.all_blocks.get(&key) {
            Some(mip_mesh) => {
                let i = lod_index.0 as usize;
                if i < mip_mesh.lods.len() {
                    mip_mesh.lods[i].as_ref()
                } else {
                    None
                }
            },
            None => None,
        }
    }

    /// Whether the mesh of a block at a level of detail can be had: it is
    /// kept, or it can be generated.
    pub open spec fn spec_can_load(self, field: FieldSamples, position: BlockPosition, lod: LODIndex) -> bool {
        self.cached(position, lod) is Some || mesh_ready(self.spec_voxels(), field, position, lod)
    }

    /// Whether the mesh of a block at a level of detail can be had.
    pub fn can_load(&self, field: &FieldSamples, position: &BlockPosition, lod_index: LODIndex) -> (can: bool)
        requires
            self.wf(),
            field.wf(),
            position.in_range(),
            lod_index.0 < NUM_LODS,
            covers_block(*field, *position, lod_index),
        ensures
            can == self.spec_can_load(*field, *position, lod_index),
    {
        self.get(position, lod_index).is_some() || is_mesh_ready(&self.voxels, field, position, lod_index)
    }

    /// The mesh of a block at a level of detail. A mesh that is kept is
    /// handed out as it is; one that is not is generated, its triangles
    /// numbered from the allocator, and kept from then on.
    pub fn load(
        &mut self,
        id_allocator: &mut IdAllocator,
        field: &FieldSamples,
        position: &BlockPosition,
        lod_index: LODIndex,
    ) -> (block: &TerrainBlock)
        requires
            old(self).wf(),
            field.wf(),
            position.in_range(),
            lod_index.0 < NUM_LODS,
            covers_block(*field, *position, lod_index),
            old(self).spec_can_load(*field, *position, lod_index),
            old(id_allocator).remaining() >= max_block_triangles(lod_index),
        ensures
            final(self).wf(),
            final(self).spec_terrain_seed() == old(self).spec_terrain_seed(),
            final(self).spec_treemap() == old(self).spec_treemap(),
            final(self).same_cache_elsewhere(*old(self), *position, lod_index),
            read_alike(final(self).spec_voxels(), old(self).spec_voxels(), *field, spec_lg_sample_size(lod_index)),
            keeps(final(self).spec_voxels(), old(self).spec_voxels(), *field, spec_lg_sample_size(lod_index)),
            final(self).cached(*position, lod_index) == Some(block@),
            match old(self).cached(*position, lod_index) {
                Some(kept) => {
                    &&& block@ == kept
                    &&& final(self).spec_voxels() == old(self).spec_voxels()
                    &&& final(id_allocator).spec_next() == old(id_allocator).spec_next()
                },
                None => {
                    &&& is_mesh_of(
                        block@,
                        spec_block_triangles(old(self).spec_voxels(), *field, *position, lod_index),
                        old(id_allocator).spec_next(),
                    )
                    &&& forall|k: int|
                        0 <= k < block@.vertex_coordinates.len() ==> triangle_in_range(
                            #[trigger] block@.vertex_coordinates[k],
                        )
                    &&& forall|k: int| 0 <= k < block@.bounds.len() ==> padded((#[trigger] block@.bounds[k]).1)
                    &&& final(id_allocator).spec_next() == old(id_allocator).spec_next()
                        + block@.vertex_coordinates.len()
                    &&& filled(
                        final(self).spec_voxels(),
                        old(self).spec_voxels(),
                        *field,
                        spec_lg_sample_size(lod_index),
                        spec_block_touched(old(self).spec_voxels(), *field, *position, lod_index),
                    )
                },
            },
    {
        let key = position.key();
        let i = lod_index.0 as usize;
        let ghost before = *self;
        proof {
            crate::stored::lemma_read_alike_same(self.voxels, *field, spec_lg_sample_size(lod_index));
        }
        let mut mip_mesh = match self.all_blocks.remove(&key) {
            Some(mip_mesh) => mip_mesh,
            None => TerrainMipMesh { lods: Vec::new() },
        };
        let ghost kept = mip_mesh.lods@;
        while mip_mesh.lods.len() <= i
            invariant
                kept.len() <= mip_mesh.lods@.len(),
                forall|k: int| 0 <= k < kept.len() ==> mip_mesh.lods@[k] == kept[k],
                forall|k: int| kept.len() <= k < mip_mesh.lods@.len() ==> mip_mesh.lods@[k] is None,
            decreases i + 1 - mip_mesh.lods@.len(),
        {
            mip_mesh.lods.push(None);
        }
        if mip_mesh.lods[i].is_none() {
            let generated = generate_block(id_allocator, field, &mut self.voxels, position, lod_index);
            mip_mesh.lods.set(i, Some(generated));
        }
        let ghost filled = mip_mesh.lods@;
        self.all_blocks.insert(key, mip_mesh);
        proof {
            assert forall|p: BlockPosition, l: LODIndex| p != *position || l != lod_index implies #[trigger] self.cached(
                p,
                l,
            ) == before.cached(p, l) by {
                if p.spec_key() == key {
                    p.lemma_key_injective(*position);
                }
            }
        }
        match self.all_blocks.get(&key) {
            Some(mip_mesh) => match mip_mesh.lods[i].as_ref() {
                Some(block) => block,
                None => vstd::pervasive::unreached(),
            },
            None => vstd::pervasive::unreached(),
        }
    }
}

} // verus!
