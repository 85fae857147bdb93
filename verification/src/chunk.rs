//! A chunk: a fixed-size cubic voxel grid with a per-chunk material palette.

use vstd::prelude::*;
use crate::coords::{ChunkCoord, VoxelPos, valid_chunk_size};
use crate::voxel::{Voxel, air_name, air_string, str_eq};

verus! {

/// Largest number of distinct materials one chunk's palette can intern:
/// voxels store the palette index in eight bits.
pub const PALETTE_CAP: usize = 256;

/// Index of local cell `(x, y, z)` in the flat voxel array of a chunk of
/// edge length `size`.
pub open spec fn vox_index(size: int, x: int, y: int, z: int) -> int {
    (x * size + y) * size + z
}

/// The flat index of an in-bounds cell lies within the cube's volume, and
/// every intermediate product stays small.
pub proof fn lemma_vox_index_bounds(size: int, x: int, y: int, z: int)
    requires
        1 <= size <= 256,
        0 <= x < size,
        0 <= y < size,
        0 <= z < size,
    ensures
        0 <= x * size <= size * size,
        0 <= x * size + y < size * size,
        0 <= (x * size + y) * size + z < size * size * size,
        0 <= vox_index(size, x, y, z) < size * size * size,
        size * size * size <= 0x100_0000,
{
    assert(0 <= x * size <= size * size && 0 <= x * size + y < size * size && 0 <= (x * size + y)
        * size + z < size * size * size && size * size * size <= 0x100_0000) by (nonlinear_arith)
        requires
            1 <= size <= 256,
            0 <= x < size,
            0 <= y < size,
            0 <= z < size,
    ;
}

/// Distinct in-bounds cells have distinct flat indices.
pub proof fn lemma_vox_index_injective(size: int, x1: int, y1: int, z1: int, x2: int, y2: int, z2: int)
    requires
        1 <= size,
        0 <= x1 < size,
        0 <= y1 < size,
        0 <= z1 < size,
        0 <= x2 < size,
        0 <= y2 < size,
        0 <= z2 < size,
        !(x1 == x2 && y1 == y2 && z1 == z2),
    ensures
        vox_index(size, x1, y1, z1) != vox_index(size, x2, y2, z2),
{
    assert((x1 * size + y1) * size + z1 != (x2 * size + y2) * size + z2) by (nonlinear_arith)
        requires
            1 <= size,
            0 <= x1 < size,
            0 <= y1 < size,
            0 <= z1 < size,
            0 <= x2 < size,
            0 <= y2 < size,
            0 <= z2 < size,
            !(x1 == x2 && y1 == y2 && z1 == z2),
    ;
}

/// One chunk's voxels and its local material palette.
///
/// The palette interns material names: each voxel stores only an index into
/// it. A name-to-index lookup would be a derived structure, rebuildable from
/// the palette alone, so the palette list is the single source of truth here
/// and lookups scan it.
#[derive(Debug, Clone)]
pub struct ChunkData {
    pub coord: ChunkCoord,
    pub size: usize,
    pub voxels: Vec<Voxel>,
    pub modified: bool,
    pub material_palette: Vec<String>,
}

impl ChunkData {
    /// Grid and palette invariants: a full cube of voxels, a non-empty
    /// palette capped at 256 entries with air at index 0 and distinct names,
    /// and every voxel's id a valid palette index.
    pub open spec fn wf(self) -> bool {
        &&& valid_chunk_size(self.size)
        &&& self.voxels@.len() == self.size * self.size * self.size
        &&& 1 <= self.material_palette@.len() <= PALETTE_CAP
        &&& self.material_palette@[0]@ == air_name()
        &&& forall|i: int, j: int|
            0 <= i < j < self.material_palette@.len() ==> self.material_palette@[i]@
                != self.material_palette@[j]@
        &&& forall|k: int|
            0 <= k < self.voxels@.len() ==> (#[trigger] self.voxels@[k]).material_id
                < self.material_palette@.len()
    }

    /// True when `(x, y, z)` lies inside the cube.
    pub open spec fn in_bounds(self, x: int, y: int, z: int) -> bool {
        0 <= x < self.size && 0 <= y < self.size && 0 <= z < self.size
    }

    /// The voxel stored at in-bounds cell `(x, y, z)`.
    pub open spec fn spec_voxel(self, x: int, y: int, z: int) -> Voxel {
        self.voxels@[vox_index(self.size as int, x, y, z)]
    }

    pub open spec fn palette_contains(self, name: Seq<char>) -> bool {
        exists|i: int|
            0 <= i < self.material_palette@.len() && self.material_palette@[i]@ == name
    }

    /// The palette index interning `name`; meaningful only when present.
    pub open spec fn palette_index_of(self, name: Seq<char>) -> int {
        choose|i: int|
            0 <= i < self.material_palette@.len() && self.material_palette@[i]@ == name
    }

    /// With distinct palette names, the index holding a name is unique.
    pub proof fn lemma_palette_index_at(self, i: int)
        requires
            self.wf(),
            0 <= i < self.material_palette@.len(),
        ensures
            self.palette_index_of(self.material_palette@[i]@) == i,
            self.palette_contains(self.material_palette@[i]@),
    {
        let name = self.material_palette@[i]@;
        assert(self.palette_contains(name));
        let j = self.palette_index_of(name);
        if i < j {
            assert(self.material_palette@[i]@ != self.material_palette@[j]@);
        } else if j < i {
            assert(self.material_palette@[j]@ != self.material_palette@[i]@);
        }
    }

    /// Interning is idempotent: a name the palette holds sits at exactly
    /// one index, so interning it again returns the index the first intern
    /// assigned and, by `get_material_id`'s present-name clause, leaves the
    /// chunk unchanged.
    pub proof fn lemma_intern_idempotent(self, name: Seq<char>)
        requires
            self.wf(),
            self.palette_contains(name),
        ensures
            0 <= self.palette_index_of(name) < self.material_palette@.len(),
            self.material_palette@[self.palette_index_of(name)]@ == name,
            forall|i: int|
                0 <= i < self.material_palette@.len() && self.material_palette@[i]@ == name
                    ==> i == self.palette_index_of(name),
    {
        assert forall|i: int|
            0 <= i < self.material_palette@.len() && self.material_palette@[i]@ == name implies i
            == self.palette_index_of(name) by {
            self.lemma_palette_index_at(i);
        }
    }

    /// A full palette admits no new name: with all indices assigned to
    /// other names, the name is never given an index — `try_get_material_id`
    /// reports `None` on exactly these inputs and changes nothing, and
    /// `get_material_id` excludes them outright.
    pub proof fn lemma_full_palette_refuses_new_name(self, name: Seq<char>)
        requires
            self.wf(),
            !self.palette_contains(name),
            self.material_palette@.len() == PALETTE_CAP,
        ensures
            forall|i: int|
                0 <= i < self.material_palette@.len() ==> self.material_palette@[i]@ != name,
    {
    }

    /// A fresh all-air chunk: palette `["air"]`, every voxel id 0, not
    /// modified.
    pub fn new(coord: ChunkCoord, size: usize) -> (c: ChunkData)
        requires
            valid_chunk_size(size),
        ensures
            c.wf(),
            c.coord == coord,
            c.size == size,
            !c.modified,
            c.material_palette@.len() == 1,
            c.material_palette@[0]@ == air_name(),
            forall|k: int| 0 <= k < c.voxels@.len() ==> (#[trigger] c.voxels@[k]).material_id == 0,
    {
        proof {
            lemma_volume_fits(size as int);
        }
        let volume: usize = size * size * size;
        let mut voxels: Vec<Voxel> = Vec::new();
        let mut k: usize = 0;
        while k < volume
            invariant
                k <= volume,
                voxels@.len() == k,
                forall|i: int| 0 <= i < k ==> (#[trigger] voxels@[i]).material_id == 0,
            decreases volume - k,
        {
            voxels.push(Voxel::air());
            k = k + 1;
        }
        let mut palette: Vec<String> = Vec::new();
        palette.push(air_string());
        ChunkData { coord, size, voxels, modified: false, material_palette: palette }
    }

    /// Returns the palette index interning `name`, appending a new entry if
    /// the palette still has room; `None` exactly when a 257th distinct name
    /// would be needed. The grid is untouched either way.
    pub fn try_get_material_id(&mut self, name: &str) -> (r: Option<u8>)
        requires
            old(self).wf(),
        ensures
            final(self).wf(),
            final(self).coord == old(self).coord,
            final(self).size == old(self).size,
            final(self).voxels == old(self).voxels,
            final(self).modified == old(self).modified,
            r is None <==> !old(self).palette_contains(name@) && old(
                self,
            ).material_palette@.len() == PALETTE_CAP,
            r is None ==> *final(self) == *old(self),
            old(self).palette_contains(name@) ==> *final(self) == *old(self) && r == Some(
                old(self).palette_index_of(name@) as u8,
            ),
            !old(self).palette_contains(name@) && old(self).material_palette@.len() < PALETTE_CAP
                ==> final(self).material_palette@.len() == old(self).material_palette@.len() + 1
                && final(self).material_palette@[old(self).material_palette@.len() as int]@
                == name@ && (forall|i: int|
                0 <= i < old(self).material_palette@.len()
                    ==> final(self).material_palette@[i] == old(self).material_palette@[i])
                && r == Some(old(self).material_palette@.len() as u8),
            final(self).palette_contains(name@) || r is None,
    {
        let ghost pre = *self;
        let n = self.material_palette.len();
        let mut i: usize = 0;
        while i < n
            invariant
                pre == *old(self),
                *self == pre,
                pre.wf(),
                n == self.material_palette@.len(),
                i <= n,
                forall|j: int| 0 <= j < i ==> self.material_palette@[j]@ != name@,
            decreases n - i,
        {
            if str_eq(self.material_palette[i].as_str(), name) {
                proof {
                    self.lemma_palette_index_at(i as int);
                }
                return Some(i as u8);
            }
            i = i + 1;
        }
        if n >= PALETTE_CAP {
            return None;
        }
        self.material_palette.push(name.to_owned());
        proof {
            assert(self.wf());
            self.lemma_palette_index_at(n as int);
        }
        Some(n as u8)
    }

    /// Returns the palette index interning `name`. Callers must know the
    /// name is already interned or that the palette has room; `try_get_material_id`
    /// reports the overflow case instead.
    pub fn get_material_id(&mut self, name: &str) -> (id: u8)
        requires
            old(self).wf(),
            old(self).palette_contains(name@) || old(self).material_palette@.len() < PALETTE_CAP,
        ensures
            final(self).wf(),
            final(self).coord == old(self).coord,
            final(self).size == old(self).size,
            final(self).voxels == old(self).voxels,
            final(self).modified == old(self).modified,
            old(self).palette_contains(name@) ==> *final(self) == *old(self) && id == old(
                self,
            ).palette_index_of(name@) as u8,
            !old(self).palette_contains(name@) ==> final(self).material_palette@ == old(
                self,
            ).material_palette@.push(final(self).material_palette@[old(
                self,
            ).material_palette@.len() as int]) && final(self).material_palette@[old(
                self,
            ).material_palette@.len() as int]@ == name@ && id == old(
                self,
            ).material_palette@.len() as u8,
            final(self).palette_contains(name@),
            final(self).palette_index_of(name@) == id,
    {
        let ghost pre = *self;
        let r = self.try_get_material_id(name);
        proof {
            if pre.palette_contains(name@) {
                pre.lemma_palette_index_at(pre.palette_index_of(name@));
            } else {
                assert(final(self).material_palette@ =~= pre.material_palette@.push(
                    self.material_palette@[pre.material_palette@.len() as int],
                ));
                self.lemma_palette_index_at(pre.material_palette@.len() as int);
            }
        }
        r.unwrap()
    }

    /// The interned name for a palette index, or `None` for an index the
    /// palette has not assigned.
    pub fn get_material_name(&self, material_id: u8) -> (r: Option<&String>)
        ensures
            material_id < self.material_palette@.len() ==> r == Some(
                &self.material_palette@[material_id as int],
            ),
            material_id >= self.material_palette@.len() ==> r is None,
    {
        if (material_id as usize) < self.material_palette.len() {
            Some(&self.material_palette[material_id as usize])
        } else {
            None
        }
    }

    /// The voxel at local cell `(x, y, z)`, or `None` outside the cube.
    pub fn get_voxel(&self, x: usize, y: usize, z: usize) -> (r: Option<Voxel>)
        requires
            self.wf(),
        ensures
            self.in_bounds(x as int, y as int, z as int) ==> r == Some(
                self.spec_voxel(x as int, y as int, z as int),
            ),
            !self.in_bounds(x as int, y as int, z as int) ==> r is None,
    {
        if x >= self.size || y >= self.size || z >= self.size {
            return None;
        }
        proof {
            lemma_vox_index_bounds(self.size as int, x as int, y as int, z as int);
            lemma_volume_fits(self.size as int);
        }
        Some(self.voxels[(x * self.size + y) * self.size + z])
    }

    /// Writes a voxel at local cell `(x, y, z)`; out-of-bounds writes return
    /// `false` and change nothing. `modified` becomes true exactly when a
    /// stored voxel actually changes, and never goes back to false.
    pub fn set_voxel(&mut self, x: usize, y: usize, z: usize, voxel: Voxel) -> (ok: bool)
        requires
            old(self).wf(),
            voxel.material_id < old(self).material_palette@.len(),
        ensures
            final(self).wf(),
            ok == old(self).in_bounds(x as int, y as int, z as int),
            final(self).coord == old(self).coord,
            final(self).size == old(self).size,
            final(self).material_palette == old(self).material_palette,
            !ok ==> *final(self) == *old(self),
            ok ==> final(self).voxels@ == old(self).voxels@.update(
                vox_index(old(self).size as int, x as int, y as int, z as int),
                voxel,
            ),
            final(self).modified == (old(self).modified || (ok && old(self).spec_voxel(
                x as int,
                y as int,
                z as int,
            ) != voxel)),
    {
        if x >= self.size || y >= self.size || z >= self.size {
            return false;
        }
        proof {
            lemma_vox_index_bounds(self.size as int, x as int, y as int, z as int);
            lemma_volume_fits(self.size as int);
        }
        let idx = (x * self.size + y) * self.size + z;
        if self.voxels[idx] != voxel {
            self.voxels.set(idx, voxel);
            self.modified = true;
        } else {
            proof {
                assert(self.voxels@ =~= self.voxels@.update(idx as int, voxel));
            }
        }
        true
    }

    /// The voxel owning a world position, or `None` when the position lies
    /// outside this chunk.
    pub fn get_voxel_world_pos(&self, world_pos: VoxelPos) -> (r: Option<Voxel>)
        requires
            self.wf(),
            world_pos.in_chunk_range(self.size),
        ensures
            ({
                let ox = world_pos.x - self.coord.spec_to_world_pos(self.size).x;
                let oy = world_pos.y - self.coord.spec_to_world_pos(self.size).y;
                let oz = world_pos.z - self.coord.spec_to_world_pos(self.size).z;
                if self.in_bounds(ox, oy, oz) {
                    r == Some(self.spec_voxel(ox, oy, oz))
                } else {
                    r is None
                }
            }),
    {
        proof {
            crate::coords::lemma_axis_world_fits(self.coord.x as int, self.size as int);
            crate::coords::lemma_axis_world_fits(self.coord.y as int, self.size as int);
            crate::coords::lemma_axis_world_fits(self.coord.z as int, self.size as int);
        }
        let origin = self.coord.to_world_pos(self.size);
        let lx = world_pos.x - origin.x;
        let ly = world_pos.y - origin.y;
        let lz = world_pos.z - origin.z;
        if lx < 0 || ly < 0 || lz < 0 || lx >= self.size as i64 || ly >= self.size as i64 || lz
            >= self.size as i64 {
            return None;
        }
        self.get_voxel(lx as usize, ly as usize, lz as usize)
    }

    /// Writes the voxel owning a world position; positions outside this
    /// chunk return `false` and change nothing.
    pub fn set_voxel_world_pos(&mut self, world_pos: VoxelPos, voxel: Voxel) -> (ok: bool)
        requires
            old(self).wf(),
            world_pos.in_chunk_range(old(self).size),
            voxel.material_id < old(self).material_palette@.len(),
        ensures
            final(self).wf(),
            final(self).coord == old(self).coord,
            final(self).size == old(self).size,
            final(self).material_palette == old(self).material_palette,
            ({
                let ox = world_pos.x - old(self).coord.spec_to_world_pos(old(self).size).x;
                let oy = world_pos.y - old(self).coord.spec_to_world_pos(old(self).size).y;
                let oz = world_pos.z - old(self).coord.spec_to_world_pos(old(self).size).z;
                &&& ok == old(self).in_bounds(ox, oy, oz)
                &&& !ok ==> *final(self) == *old(self)
                &&& ok ==> final(self).voxels@ == old(self).voxels@.update(
                    vox_index(old(self).size as int, ox, oy, oz),
                    voxel,
                )
                &&& final(self).modified == (old(self).modified || (ok && old(self).spec_voxel(
                    ox,
                    oy,
                    oz,
                ) != voxel))
            }),
    {
        proof {
            crate::coords::lemma_axis_world_fits(self.coord.x as int, self.size as int);
            crate::coords::lemma_axis_world_fits(self.coord.y as int, self.size as int);
            crate::coords::lemma_axis_world_fits(self.coord.z as int, self.size as int);
        }
        let origin = self.coord.to_world_pos(self.size);
        let lx = world_pos.x - origin.x;
        let ly = world_pos.y - origin.y;
        let lz = world_pos.z - origin.z;
        if lx < 0 || ly < 0 || lz < 0 || lx >= self.size as i64 || ly >= self.size as i64 || lz
            >= self.size as i64 {
            return false;
        }
        self.set_voxel(lx as usize, ly as usize, lz as usize, voxel)
    }

    /// Interns `name` and writes the resulting voxel at `(x, y, z)`.
    /// As in `get_material_id`, the palette may grow even when the cell is
    /// out of bounds.
    pub fn set_voxel_by_material(&mut self, x: usize, y: usize, z: usize, name: &str) -> (ok:
        bool)
        requires
            old(self).wf(),
            old(self).palette_contains(name@) || old(self).material_palette@.len() < PALETTE_CAP,
        ensures
            final(self).wf(),
            final(self).coord == old(self).coord,
            final(self).size == old(self).size,
            ok == old(self).in_bounds(x as int, y as int, z as int),
            final(self).palette_contains(name@),
            ok ==> final(self).voxels@ == old(self).voxels@.update(
                vox_index(old(self).size as int, x as int, y as int, z as int),
                Voxel { material_id: final(self).palette_index_of(name@) as u8 },
            ),
            !ok ==> final(self).voxels == old(self).voxels,
            final(self).modified == (old(self).modified || (ok && old(self).spec_voxel(
                x as int,
                y as int,
                z as int,
            ) != Voxel { material_id: final(self).palette_index_of(name@) as u8 })),
    {
        let id = self.get_material_id(name);
        self.set_voxel(x, y, z, Voxel::new(id))
    }

    /// True when the chunk still awaits terrain generation: never modified
    /// and holding no material beyond air.
    pub fn needs_generation(&self) -> (r: bool)
        ensures
            r == (!self.modified && self.material_palette@.len() == 1),
    {
        !self.modified && self.material_palette.len() == 1
    }
}

/// The volume of a valid chunk size fits comfortably in a `usize`.
proof fn lemma_volume_fits(size: int)
    requires
        1 <= size <= 256,
    ensures
        0 < size * size <= 0x1_0000,
        0 < size * size * size <= 0x100_0000,
{
    assert(0 < size * size <= 0x1_0000 && 0 < size * size * size <= 0x100_0000) by (
        nonlinear_arith)
        requires
            1 <= size <= 256,
    ;
}

} // verus!
