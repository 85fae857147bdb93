use bevoxel::voxel::{Material, MaterialRegistry, Rgba, Voxel};

fn stone() -> Material {
    Material::with_variance("stone", Rgba::new(500, 500, 500, 1000), true, 80)
}

#[test]
fn registry_falls_back_to_unknown() {
    let reg = MaterialRegistry::new();
    let m = reg.get("never_registered");
    assert_eq!(m.name, "unknown");
    assert_eq!(m.color, Rgba::new(1000, 0, 1000, 1000));
    assert!(m.solid);
    assert!(!reg.contains("never_registered"));
}

#[test]
fn registry_lookup_finds_registered_material() {
    let mut reg = MaterialRegistry::new();
    reg.register(stone());
    reg.register(Material::with_buoyancy("water", Rgba::new(200, 400, 800, 700), false, 300, 600));
    assert!(reg.contains("stone"));
    assert!(reg.contains("water"));
    assert!(!reg.contains("ston"));
    let w = reg.get("water");
    assert_eq!(w.gravity_modifier, 300);
    assert_eq!(w.swim_strength, 600);
    assert!(!w.solid);
    assert_eq!(reg.get("stone").color_variance, 80);
}

#[test]
fn registry_register_replaces_same_name() {
    let mut reg = MaterialRegistry::new();
    reg.register(stone());
    reg.register(Material::new("stone", Rgba::new(100, 100, 100, 1000), false));
    assert_eq!(reg.materials().len(), 1);
    assert!(!reg.get("stone").solid);
}

#[test]
fn transparency_classification() {
    let solid_opaque = Material::new("rock", Rgba::new(1, 2, 3, 1000), true);
    assert!(!solid_opaque.is_transparent());
    assert!(!solid_opaque.is_truly_transparent());

    // A semi-transparent solid, such as leaves, is transparent but not
    // genuinely transparent.
    let leaves = Material::new("leaves", Rgba::new(100, 600, 100, 800), true);
    assert!(leaves.is_transparent());
    assert!(!leaves.is_truly_transparent());

    let water = Material::new("water", Rgba::new(200, 400, 800, 700), false);
    assert!(water.is_transparent());
    assert!(water.is_truly_transparent());

    // Air is transparent but excluded from "genuinely transparent".
    let air = Material::new("air", Rgba::new(0, 0, 0, 0), false);
    assert!(air.is_transparent());
    assert!(!air.is_truly_transparent());
}

#[test]
fn voxel_default_is_air_index() {
    assert_eq!(Voxel::air(), Voxel::new(0));
    let v: Voxel = Default::default();
    assert_eq!(v.material_id, 0);
}
