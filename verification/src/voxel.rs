//! Materials, the material registry, and the per-voxel palette index.
//!
//! Colors and physical modifiers are carried in integer thousandths; a
//! renderer converts to floating point at the boundary.

use vstd::prelude::*;

verus! {

/// Relies on `str::eq` (`==` on string slices): true exactly when the two
/// slices hold the same characters.
pub assume_specification[ <str as PartialEq>::eq ](s: &str, other: &str) -> (res: bool)
    ensures
        res == (s@ == other@),
;

/// Compares two string slices by contents.
pub fn str_eq(a: &str, b: &str) -> (r: bool)
    ensures
        r == (a@ == b@),
{
    a.eq(b)
}

/// The name of the material that fills empty space.
pub open spec fn air_name() -> Seq<char> {
    "air"@
}

/// The name of the fallback material for unregistered names.
pub open spec fn unknown_name() -> Seq<char> {
    "unknown"@
}

/// A fresh `String` holding the air material's name.
pub fn air_string() -> (s: String)
    ensures
        s@ == air_name(),
{
    "air".to_owned()
}

/// Channel values run from 0 to `COLOR_SCALE` (fully saturated or fully
/// opaque), in thousandths.
pub const COLOR_SCALE: u16 = 1000;

/// An RGBA color with integer channels in thousandths.
#[derive(Clone, Copy, Debug, PartialEq, Eq, Structural)]
pub struct Rgba {
    pub r: u16,
    pub g: u16,
    pub b: u16,
    pub a: u16,
}

impl Rgba {
    pub open spec fn wf(self) -> bool {
        &&& self.r <= COLOR_SCALE
        &&& self.g <= COLOR_SCALE
        &&& self.b <= COLOR_SCALE
        &&& self.a <= COLOR_SCALE
    }

    pub fn new(r: u16, g: u16, b: u16, a: u16) -> (c: Rgba)
        requires
            r <= COLOR_SCALE,
            g <= COLOR_SCALE,
            b <= COLOR_SCALE,
            a <= COLOR_SCALE,
        ensures
            c == (Rgba { r, g, b, a }),
            c.wf(),
    {
        Rgba { r, g, b, a }
    }
}

/// A named material: its color, solidity and physical modifiers.
/// `color_variance` controls per-voxel lightness jitter; `gravity_modifier`
/// and `swim_strength` are consumed by an external movement system.
/// All three are in thousandths.
#[derive(Clone, Debug)]
pub struct Material {
    pub name: String,
    pub color: Rgba,
    pub solid: bool,
    pub color_variance: u16,
    pub gravity_modifier: i32,
    pub swim_strength: u16,
}

/// Structural equality of two materials, comparing names by contents.
pub open spec fn same_material(a: Material, b: Material) -> bool {
    &&& a.name@ == b.name@
    &&& a.color == b.color
    &&& a.solid == b.solid
    &&& a.color_variance == b.color_variance
    &&& a.gravity_modifier == b.gravity_modifier
    &&& a.swim_strength == b.swim_strength
}

impl Material {
    pub open spec fn wf(self) -> bool {
        self.color.wf()
    }

    pub fn new(name: &str, color: Rgba, solid: bool) -> (m: Material)
        requires
            color.wf(),
        ensures
            m.name@ == name@,
            m.color == color,
            m.solid == solid,
            m.color_variance == 0,
            m.gravity_modifier == 1000,
            m.swim_strength == 0,
            m.wf(),
    {
        Material {
            name: name.to_owned(),
            color,
            solid,
            color_variance: 0,
            gravity_modifier: 1000,
            swim_strength: 0,
        }
    }

    pub fn with_variance(name: &str, color: Rgba, solid: bool, variance: u16) -> (m: Material)
        requires
            color.wf(),
        ensures
            m.name@ == name@,
            m.color == color,
            m.solid == solid,
            m.color_variance == variance,
            m.gravity_modifier == 1000,
            m.swim_strength == 0,
            m.wf(),
    {
        Material {
            name: name.to_owned(),
            color,
            solid,
            color_variance: variance,
            gravity_modifier: 1000,
            swim_strength: 0,
        }
    }

    pub fn with_buoyancy(
        name: &str,
        color: Rgba,
        solid: bool,
        gravity_modifier: i32,
        swim_strength: u16,
    ) -> (m: Material)
        requires
            color.wf(),
        ensures
            m.name@ == name@,
            m.color == color,
            m.solid == solid,
            m.color_variance == 0,
            m.gravity_modifier == gravity_modifier,
            m.swim_strength == swim_strength,
            m.wf(),
    {
        Material {
            name: name.to_owned(),
            color,
            solid,
            color_variance: 0,
            gravity_modifier,
            swim_strength,
        }
    }

    pub fn get_color(&self) -> (c: Rgba)
        ensures
            c == self.color,
    {
        self.color
    }

    pub open spec fn spec_is_solid(self) -> bool {
        self.solid
    }

    pub fn is_solid(&self) -> (r: bool)
        ensures
            r == self.spec_is_solid(),
    {
        self.solid
    }

    /// A material lets light through when it is not solid or when its alpha
    /// is below fully opaque.
    pub open spec fn spec_is_transparent(self) -> bool {
        self.color.a < COLOR_SCALE || !self.solid
    }

    pub fn is_transparent(&self) -> (r: bool)
        ensures
            r == self.spec_is_transparent(),
    {
        self.color.a < COLOR_SCALE || !self.solid
    }

    /// Genuinely transparent: non-solid, alpha below opaque, and not air.
    /// Distinguished from semi-transparent solids, which cull as opaque.
    pub open spec fn spec_truly_transparent(self) -> bool {
        !self.solid && self.spec_is_transparent() && self.name@ != air_name()
    }

    pub fn is_truly_transparent(&self) -> (r: bool)
        ensures
            r == self.spec_truly_transparent(),
    {
        !self.solid && self.is_transparent() && !str_eq(self.name.as_str(), "air")
    }
}

/// Compares two materials field by field, names by contents.
pub fn material_eq(a: &Material, b: &Material) -> (r: bool)
    ensures
        r == same_material(*a, *b),
{
    str_eq(a.name.as_str(), b.name.as_str()) && a.color == b.color && a.solid == b.solid
        && a.color_variance == b.color_variance && a.gravity_modifier == b.gravity_modifier
        && a.swim_strength == b.swim_strength
}

/// Name-to-material lookup with a fixed fallback for unregistered names.
/// Read-only at runtime after setup.
#[derive(Debug, Clone)]
pub struct MaterialRegistry {
    pub materials: Vec<Material>,
    pub unknown_material: Material,
}

impl MaterialRegistry {
    /// Registered names are pairwise distinct and every entry is well formed.
    pub open spec fn wf(self) -> bool {
        &&& forall|i: int, j: int|
            0 <= i < j < self.materials@.len() ==> self.materials@[i].name@
                != self.materials@[j].name@
        &&& forall|i: int| 0 <= i < self.materials@.len() ==> (#[trigger] self.materials@[i]).wf()
        &&& self.unknown_material.wf()
        &&& self.unknown_material.name@ == unknown_name()
    }

    pub open spec fn spec_contains(self, name: Seq<char>) -> bool {
        exists|i: int| 0 <= i < self.materials@.len() && self.materials@[i].name@ == name
    }

    /// The registered material with the given name, or the fallback.
    pub open spec fn spec_get(self, name: Seq<char>) -> Material {
        if self.spec_contains(name) {
            self.materials@[choose|i: int|
                0 <= i < self.materials@.len() && self.materials@[i].name@ == name]
        } else {
            self.unknown_material
        }
    }

    /// The fallback for unregistered names: bright magenta, solid.
    pub fn new() -> (reg: MaterialRegistry)
        ensures
            reg.wf(),
            reg.materials@.len() == 0,
            reg.unknown_material.name@ == unknown_name(),
            reg.unknown_material.color == (Rgba { r: 1000, g: 0, b: 1000, a: 1000 }),
            reg.unknown_material.solid,
    {
        MaterialRegistry {
            materials: Vec::new(),
            unknown_material: Material::new(
                "unknown",
                Rgba { r: 1000, g: 0, b: 1000, a: 1000 },
                true,
            ),
        }
    }

    /// With distinct names, the index holding `name` is unique, so `spec_get`
    /// returns that entry.
    proof fn lemma_get_at(self, i: int)
        requires
            self.wf(),
            0 <= i < self.materials@.len(),
        ensures
            self.spec_get(self.materials@[i].name@) == self.materials@[i],
    {
        let name = self.materials@[i].name@;
        assert(self.spec_contains(name));
        let j = choose|j: int|
            0 <= j < self.materials@.len() && self.materials@[j].name@ == name;
        if i < j {
            assert(self.materials@[i].name@ != self.materials@[j].name@);
        } else if j < i {
            assert(self.materials@[j].name@ != self.materials@[i].name@);
        }
    }

    /// Registers a material: replaces the entry with the same name, or
    /// appends a new one. Other entries are untouched.
    pub fn register(&mut self, material: Material)
        requires
            old(self).wf(),
            material.wf(),
        ensures
            final(self).wf(),
            final(self).spec_contains(material.name@),
            final(self).spec_get(material.name@) == material,
            forall|n: Seq<char>|
                n != material.name@ ==> #[trigger] final(self).spec_contains(n) == old(
                    self,
                ).spec_contains(n),
            forall|n: Seq<char>|
                n != material.name@ ==> #[trigger] final(self).spec_get(n) == old(self).spec_get(
                    n,
                ),
            final(self).unknown_material == old(self).unknown_material,
    {
        let ghost pre = *self;
        let n = self.materials.len();
        let mut i: usize = 0;
        while i < n
            invariant
                pre == *old(self),
                *self == pre,
                pre.wf(),
                material.wf(),
                n == self.materials@.len(),
                i <= n,
                forall|j: int| 0 <= j < i ==> self.materials@[j].name@ != material.name@,
            decreases n - i,
        {
            if str_eq(self.materials[i].name.as_str(), material.name.as_str()) {
                self.materials.set(i, material);
                proof {
                    assert(self.wf());
                    self.lemma_get_at(i as int);
                    assert forall|n2: Seq<char>| n2 != self.materials@[i as int].name@ implies
                        #[trigger] self.spec_contains(n2) == pre.spec_contains(n2)
                        && self.spec_get(n2) == pre.spec_get(n2) by {
                        lemma_lookup_unaffected(pre, *self, i as int, n2);
                    }
                }
                return ;
            }
            i = i + 1;
        }
        self.materials.push(material);
        proof {
            assert(self.wf());
            self.lemma_get_at(n as int);
            assert forall|n2: Seq<char>| n2 != material.name@ implies
                #[trigger] self.spec_contains(n2) == pre.spec_contains(n2)
                && self.spec_get(n2) == pre.spec_get(n2) by {
                lemma_lookup_after_push(pre, *self, n2);
            }
        }
    }

    /// Looks up a material by name; unregistered names get the fallback.
    pub fn get(&self, name: &str) -> (m: &Material)
        requires
            self.wf(),
        ensures
            *m == self.spec_get(name@),
            m.wf(),
    {
        let n = self.materials.len();
        let mut i: usize = 0;
        while i < n
            invariant
                self.wf(),
                n == self.materials@.len(),
                i <= n,
                forall|j: int| 0 <= j < i ==> self.materials@[j].name@ != name@,
            decreases n - i,
        {
            if str_eq(self.materials[i].name.as_str(), name) {
                proof {
                    self.lemma_get_at(i as int);
                }
                return &self.materials[i];
            }
            i = i + 1;
        }
        &self.unknown_material
    }

    pub fn contains(&self, name: &str) -> (r: bool)
        requires
            self.wf(),
        ensures
            r == self.spec_contains(name@),
    {
        let n = self.materials.len();
        let mut i: usize = 0;
        while i < n
            invariant
                n == self.materials@.len(),
                i <= n,
                forall|j: int| 0 <= j < i ==> self.materials@[j].name@ != name@,
            decreases n - i,
        {
            if str_eq(self.materials[i].name.as_str(), name) {
                return true;
            }
            i = i + 1;
        }
        false
    }

    /// All registered materials, in registration order.
    pub fn materials(&self) -> (r: &Vec<Material>)
        ensures
            r@ == self.materials@,
    {
        &self.materials
    }
}

/// Replacing or reading entry `i` does not change lookups of other names.
proof fn lemma_lookup_unaffected(
    pre: MaterialRegistry,
    post: MaterialRegistry,
    i: int,
    name: Seq<char>,
)
    requires
        pre.wf(),
        post.wf(),
        0 <= i < pre.materials@.len(),
        post.materials@.len() == pre.materials@.len(),
        forall|j: int|
            0 <= j < pre.materials@.len() && j != i ==> post.materials@[j] == pre.materials@[j],
        pre.materials@[i].name@ == post.materials@[i].name@,
        name != post.materials@[i].name@,
        post.unknown_material == pre.unknown_material,
    ensures
        post.spec_contains(name) == pre.spec_contains(name),
        post.spec_get(name) == pre.spec_get(name),
{
    if pre.spec_contains(name) {
        let j = choose|j: int|
            0 <= j < pre.materials@.len() && pre.materials@[j].name@ == name;
        assert(post.materials@[j].name@ == name);
        assert(post.spec_contains(name));
        post.lemma_get_at(j);
        pre.lemma_get_at(j);
    } else {
        if post.spec_contains(name) {
            let j = choose|j: int|
                0 <= j < post.materials@.len() && post.materials@[j].name@ == name;
            assert(pre.materials@[j].name@ == name);
        }
    }
}

/// Appending an entry does not change lookups of other names.
proof fn lemma_lookup_after_push(pre: MaterialRegistry, post: MaterialRegistry, name: Seq<char>)
    requires
        pre.wf(),
        post.wf(),
        post.materials@.len() == pre.materials@.len() + 1,
        forall|j: int|
            0 <= j < pre.materials@.len() ==> post.materials@[j] == pre.materials@[j],
        name != post.materials@[post.materials@.len() - 1].name@,
        post.unknown_material == pre.unknown_material,
    ensures
        post.spec_contains(name) == pre.spec_contains(name),
        post.spec_get(name) == pre.spec_get(name),
{
    if pre.spec_contains(name) {
        let j = choose|j: int|
            0 <= j < pre.materials@.len() && pre.materials@[j].name@ == name;
        assert(post.materials@[j].name@ == name);
        assert(post.spec_contains(name));
        post.lemma_get_at(j);
        pre.lemma_get_at(j);
    } else {
        if post.spec_contains(name) {
            let j = choose|j: int|
                0 <= j < post.materials@.len() && post.materials@[j].name@ == name;
            assert(j < pre.materials@.len() ==> pre.materials@[j].name@ == name);
        }
    }
}

/// One voxel cell: an index into the owning chunk's material palette.
#[derive(Clone, Copy, Debug, PartialEq, Eq, Structural)]
pub struct Voxel {
    pub material_id: u8,
}

impl Voxel {
    pub fn new(material_id: u8) -> (v: Voxel)
        ensures
            v == (Voxel { material_id }),
    {
        Voxel { material_id }
    }

    /// Air is always palette index 0.
    pub fn air() -> (v: Voxel)
        ensures
            v == (Voxel { material_id: 0 }),
    {
        Voxel { material_id: 0 }
    }
}

impl Default for Voxel {
    fn default() -> (v: Voxel)
        ensures
            v == (Voxel { material_id: 0 }),
    {
        Voxel { material_id: 0 }
    }
}

} // verus!
