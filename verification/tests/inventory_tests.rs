use bevoxel::inventory::{Inventory, InventorySlot};

#[test]
fn new_inventory_is_empty() {
    let inv = Inventory::new(4, 8);
    assert_eq!(inv.slots.len(), 32);
    assert_eq!(inv.selected_slot, 0);
    assert_eq!(inv.get_material_count("stone"), 0);
    assert!(!inv.has_material("stone", 1));
    assert!(inv.has_material("stone", 0));
    assert!(inv.has_material("air", 999));
}

#[test]
fn add_then_remove_material_round_trip() {
    let mut inv = Inventory::new(2, 2);
    assert_eq!(inv.add_material("stone", 10), 10);
    assert_eq!(inv.get_material_count("stone"), 10);
    assert!(inv.has_material("stone", 10));
    assert!(!inv.has_material("stone", 11));
    assert_eq!(inv.remove_material("stone", 4), 4);
    assert_eq!(inv.get_material_count("stone"), 6);
    // Withdrawing more than the stockpile yields only the stockpile.
    assert_eq!(inv.remove_material("stone", 100), 6);
    assert_eq!(inv.get_material_count("stone"), 0);
}

#[test]
fn add_material_stacks_before_opening_new_slots() {
    let mut inv = Inventory::new(1, 2);
    assert_eq!(inv.add_material("dirt", 5), 5);
    // The return value is what this call accepted, not the new total.
    assert_eq!(inv.add_material("dirt", 7), 7);
    assert_eq!(inv.get_material_count("dirt"), 12);
    // Both deposits share the first slot.
    assert_eq!(inv.get_slot(0).unwrap().quantity, 12);
    assert!(inv.get_slot(1).unwrap().is_empty());
}

#[test]
fn full_inventory_accepts_partially() {
    let mut inv = Inventory::new(1, 1);
    assert_eq!(inv.add_material("stone", u32::MAX), u32::MAX);
    // The single slot is a full stack now: further deposits are refused,
    // reported to the caller, never retried.
    assert_eq!(inv.add_material("stone", 5), 0);
    assert_eq!(inv.add_material("dirt", 5), 0);
    assert_eq!(inv.get_slot(0).unwrap().quantity, u32::MAX);
}

#[test]
fn air_and_zero_are_no_ops() {
    let mut inv = Inventory::new(1, 2);
    assert_eq!(inv.add_material("air", 10), 0);
    assert_eq!(inv.add_material("stone", 0), 0);
    assert_eq!(inv.remove_material("air", 10), 0);
    assert_eq!(inv.remove_material("stone", 0), 0);
    assert_eq!(inv.get_material_count("air"), u32::MAX);
}

#[test]
fn drained_slot_resets_to_air() {
    let mut slot = InventorySlot::new("wood", 3);
    assert!(!slot.is_empty());
    assert!(slot.can_remove(3));
    assert!(!slot.can_remove(4));
    assert_eq!(slot.remove(3), 3);
    assert!(slot.is_empty());
    assert_eq!(slot.material_name, "air");
}

#[test]
fn slot_add_saturates() {
    let mut slot = InventorySlot::new("wood", u32::MAX - 1);
    slot.add(10);
    assert_eq!(slot.quantity, u32::MAX);
}

#[test]
fn selection_wraps_around_the_grid() {
    let mut inv = Inventory::new(2, 3);
    assert_eq!(inv.selected_slot, 0);
    inv.move_selection(0, 1);
    assert_eq!(inv.selected_slot, 1);
    inv.move_selection(0, -2);
    assert_eq!(inv.selected_slot, 2);
    inv.move_selection(1, 0);
    assert_eq!(inv.selected_slot, 5);
    inv.move_selection(1, 1);
    assert_eq!(inv.selected_slot, 0);
}

#[test]
fn starting_content_lands_in_fixed_slots() {
    let mut inv = Inventory::new(4, 8);
    inv.initialize_with_test_content();
    assert_eq!(inv.get_slot(0).unwrap().material_name, "stone");
    assert_eq!(inv.get_slot(0).unwrap().quantity, 64);
    assert_eq!(inv.get_slot(1).unwrap().material_name, "dirt");
    assert_eq!(inv.get_slot(3).unwrap().material_name, "wood");
    assert_eq!(inv.get_slot(7).unwrap().material_name, "sand");
    assert!(inv.get_slot(4).unwrap().is_empty());
    assert_eq!(inv.get_material_count("stone"), 64);
}
