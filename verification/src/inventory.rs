//! The inventory: a grid of material stacks consumed by the edit engine's
//! material-collecting brush. A deposit or withdrawal may be accepted only
//! partially; the shortfall is reported to the caller, never retried.

use vstd::prelude::*;
use crate::voxel::{air_name, str_eq};

verus! {

/// One stack: a material name and how many units it holds. A slot holding
/// air, or nothing, counts as empty.
#[derive(Debug)]
pub struct InventorySlot {
    pub material_name: String,
    pub quantity: u32,
}

impl InventorySlot {
    pub open spec fn spec_is_empty(self) -> bool {
        self.quantity == 0 || self.material_name@ == air_name()
    }

    /// How many units of `name` this slot holds.
    pub open spec fn spec_count(self, name: Seq<char>) -> int {
        if self.material_name@ == name && !self.spec_is_empty() {
            self.quantity as int
        } else {
            0
        }
    }

    pub fn new(material_name: &str, quantity: u32) -> (s: InventorySlot)
        ensures
            s.material_name@ == material_name@,
            s.quantity == quantity,
    {
        InventorySlot { material_name: material_name.to_owned(), quantity }
    }

    pub fn is_empty(&self) -> (r: bool)
        ensures
            r == self.spec_is_empty(),
    {
        self.quantity == 0 || str_eq(self.material_name.as_str(), "air")
    }

    /// Adds units, saturating at the stack cap.
    pub fn add(&mut self, amount: u32)
        ensures
            final(self).material_name == old(self).material_name,
            final(self).quantity == (if old(self).quantity + amount <= u32::MAX {
                (old(self).quantity + amount) as u32
            } else {
                u32::MAX
            }),
    {
        if amount <= u32::MAX - self.quantity {
            self.quantity = self.quantity + amount;
        } else {
            self.quantity = u32::MAX;
        }
    }

    /// Removes up to `amount` units; a drained slot resets to air.
    pub fn remove(&mut self, amount: u32) -> (removed: u32)
        ensures
            removed == (if amount <= old(self).quantity {
                amount as int
            } else {
                old(self).quantity as int
            }),
            final(self).quantity == old(self).quantity - removed,
            final(self).quantity == 0 ==> final(self).material_name@ == air_name(),
            final(self).quantity != 0 ==> final(self).material_name == old(self).material_name,
    {
        let removed = if amount <= self.quantity {
            amount
        } else {
            self.quantity
        };
        self.quantity = self.quantity - removed;
        if self.quantity == 0 {
            self.material_name = crate::voxel::air_string();
        }
        removed
    }

    pub fn can_remove(&self, amount: u32) -> (r: bool)
        ensures
            r == (self.quantity >= amount && !self.spec_is_empty()),
    {
        self.quantity >= amount && !self.is_empty()
    }
}

impl Default for InventorySlot {
    fn default() -> (s: InventorySlot)
        ensures
            s.material_name@ == air_name(),
            s.quantity == 0,
            s.spec_is_empty(),
    {
        InventorySlot { material_name: crate::voxel::air_string(), quantity: 0 }
    }
}

/// Total units of `name` across a slot sequence.
pub open spec fn total_of(slots: Seq<InventorySlot>, name: Seq<char>) -> int
    decreases slots.len(),
{
    if slots.len() == 0 {
        0
    } else {
        total_of(slots.drop_last(), name) + slots.last().spec_count(name)
    }
}

/// Replacing one slot shifts the total by the difference of the slot
/// counts.
pub proof fn lemma_total_update(
    slots: Seq<InventorySlot>,
    i: int,
    v: InventorySlot,
    name: Seq<char>,
)
    requires
        0 <= i < slots.len(),
    ensures
        total_of(slots.update(i, v), name) == total_of(slots, name) - slots[i].spec_count(name)
            + v.spec_count(name),
    decreases slots.len(),
{
    let s2 = slots.update(i, v);
    if i == slots.len() - 1 {
        assert(s2.drop_last() =~= slots.drop_last());
    } else {
        assert(s2.drop_last() =~= slots.drop_last().update(i, v));
        assert(s2.last() == slots.last());
        lemma_total_update(slots.drop_last(), i, v, name);
    }
}

/// Totals are never negative.
pub proof fn lemma_total_nonneg(slots: Seq<InventorySlot>, name: Seq<char>)
    ensures
        total_of(slots, name) >= 0,
    decreases slots.len(),
{
    if slots.len() > 0 {
        lemma_total_nonneg(slots.drop_last(), name);
    }
}

/// A grid of stacks with a selected slot.
#[derive(Debug)]
pub struct Inventory {
    pub slots: Vec<InventorySlot>,
    pub rows: usize,
    pub columns: usize,
    pub selected_slot: usize,
}

impl Inventory {
    pub open spec fn wf(self) -> bool {
        &&& 1 <= self.rows <= 0x1000
        &&& 1 <= self.columns <= 0x1000
        &&& self.slots@.len() == self.rows * self.columns
        &&& self.selected_slot < self.slots@.len()
    }

    /// A `rows x columns` grid of empty slots with the first selected.
    pub fn new(rows: usize, columns: usize) -> (inv: Inventory)
        requires
            1 <= rows <= 0x1000,
            1 <= columns <= 0x1000,
        ensures
            inv.wf(),
            inv.rows == rows,
            inv.columns == columns,
            inv.selected_slot == 0,
            inv.slots@.len() == rows * columns,
            forall|i: int| 0 <= i < inv.slots@.len() ==> (#[trigger] inv.slots@[i]).spec_is_empty(),
    {
        proof {
            assert(1 <= rows * columns <= 0x100_0000) by (nonlinear_arith)
                requires
                    1 <= rows <= 0x1000,
                    1 <= columns <= 0x1000,
            ;
        }
        let total_slots = rows * columns;
        let mut slots: Vec<InventorySlot> = Vec::new();
        let mut i: usize = 0;
        while i < total_slots
            invariant
                i <= total_slots,
                slots@.len() == i,
                forall|j: int| 0 <= j < i ==> (#[trigger] slots@[j]).spec_is_empty(),
            decreases total_slots - i,
        {
            slots.push(InventorySlot::default());
            i = i + 1;
        }
        Inventory { slots, rows, columns, selected_slot: 0 }
    }

    pub fn get_slot(&self, index: usize) -> (r: Option<&InventorySlot>)
        ensures
            index < self.slots@.len() ==> r == Some(&self.slots@[index as int]),
            index >= self.slots@.len() ==> r is None,
    {
        if index < self.slots.len() {
            Some(&self.slots[index])
        } else {
            None
        }
    }

    /// Replaces the stack at `index`.
    pub fn set_slot(&mut self, index: usize, slot: InventorySlot) -> (ok: bool)
        requires
            old(self).wf(),
        ensures
            final(self).wf(),
            ok == (index < old(self).slots@.len()),
            ok ==> final(self).slots@ == old(self).slots@.update(index as int, slot),
            !ok ==> *final(self) == *old(self),
            final(self).rows == old(self).rows,
            final(self).columns == old(self).columns,
            final(self).selected_slot == old(self).selected_slot,
    {
        if index < self.slots.len() {
            self.slots.set(index, slot);
            true
        } else {
            false
        }
    }

    pub fn get_selected_slot(&self) -> (r: &InventorySlot)
        requires
            self.wf(),
        ensures
            r == &self.slots@[self.selected_slot as int],
    {
        &self.slots[self.selected_slot]
    }

    /// Moves the selection by whole rows and columns, wrapping at the grid
    /// edges.
    pub fn move_selection(&mut self, row_delta: i32, col_delta: i32)
        requires
            old(self).wf(),
            -0x1000 <= row_delta <= 0x1000,
            -0x1000 <= col_delta <= 0x1000,
        ensures
            final(self).wf(),
            final(self).slots == old(self).slots,
            final(self).rows == old(self).rows,
            final(self).columns == old(self).columns,
            ({
                let rows = old(self).rows as int;
                let cols = old(self).columns as int;
                let row = old(self).selected_slot as int / cols;
                let col = old(self).selected_slot as int % cols;
                final(self).selected_slot == euclid_mod(row + row_delta, rows) * cols
                    + euclid_mod(col + col_delta, cols)
            }),
    {
        proof {
            lemma_selection_math(
                self.selected_slot as int,
                self.rows as int,
                self.columns as int,
                row_delta as int,
                col_delta as int,
            );
        }
        let current_row = self.selected_slot / self.columns;
        let current_col = self.selected_slot % self.columns;
        let new_row = (current_row as i64 + row_delta as i64).checked_rem_euclid(
            self.rows as i64,
        ).unwrap() as usize;
        let new_col = (current_col as i64 + col_delta as i64).checked_rem_euclid(
            self.columns as i64,
        ).unwrap() as usize;
        proof {
            assert(new_row < self.rows);
            assert(new_col < self.columns);
            assert((new_row as int) * (self.columns as int) + (new_col as int) < (
            self.rows as int) * (self.columns as int) && 0 <= (new_row as int) * (
            self.columns as int) && (new_row as int) * (self.columns as int) + (new_col as int)
                < 0x100_0000) by (nonlinear_arith)
                requires
                    0 <= (new_row as int) <= (self.rows as int) - 1,
                    0 <= (new_col as int) < (self.columns as int),
                    1 <= (self.columns as int) <= 0x1000,
                    1 <= (self.rows as int) <= 0x1000,
            ;
        }
        self.selected_slot = new_row * self.columns + new_col;
    }

    /// Deposits up to `quantity` units of `name`: existing stacks of the
    /// material fill first, then empty slots. Returns how many units were
    /// accepted; a shortfall means every slot is either a full stack of the
    /// material or occupied by something else.
    pub fn add_material(&mut self, material_name: &str, quantity: u32) -> (added: u32)
        requires
            old(self).wf(),
        ensures
            final(self).wf(),
            final(self).rows == old(self).rows,
            final(self).columns == old(self).columns,
            final(self).selected_slot == old(self).selected_slot,
            final(self).slots@.len() == old(self).slots@.len(),
            added <= quantity,
            material_name@ == air_name() || quantity == 0 ==> added == 0 && final(self).slots
                == old(self).slots,
            total_of(final(self).slots@, material_name@) == total_of(
                old(self).slots@,
                material_name@,
            ) + if material_name@ == air_name() {
                0
            } else {
                added as int
            },
            forall|n: Seq<char>|
                n != material_name@ && n != air_name() ==> #[trigger] total_of(
                    final(self).slots@,
                    n,
                ) == total_of(old(self).slots@, n),
            added < quantity && material_name@ != air_name() ==> forall|i: int|
                0 <= i < final(self).slots@.len()
                    ==> ((#[trigger] final(self).slots@[i]).material_name@ == material_name@
                    && final(self).slots@[i].quantity == u32::MAX)
                    || (!final(self).slots@[i].spec_is_empty()
                    && final(self).slots@[i].material_name@ != material_name@),
    {
        let ghost pre = *self;
        if str_eq(material_name, "air") || quantity == 0 {
            return 0;
        }
        let mut remaining = quantity;
        let n = self.slots.len();
        let mut i: usize = 0;
        while i < n
            invariant
                pre == *old(self),
                pre.wf(),
                self.wf(),
                material_name@ != air_name(),
                n == self.slots@.len(),
                n == pre.slots@.len(),
                i <= n,
                self.rows == pre.rows,
                self.columns == pre.columns,
                self.selected_slot == pre.selected_slot,
                remaining <= quantity,
                0 < quantity,
                0 < remaining,
                total_of(self.slots@, material_name@) == total_of(pre.slots@, material_name@) + (
                quantity - remaining),
                forall|nm: Seq<char>|
                    nm != material_name@ && nm != air_name() ==> #[trigger] total_of(
                        self.slots@,
                        nm,
                    ) == total_of(pre.slots@, nm),
                forall|j: int|
                    0 <= j < i ==> !((#[trigger] self.slots@[j]).material_name@ == material_name@
                        && !self.slots@[j].spec_is_empty()) || self.slots@[j].quantity
                        == u32::MAX,
                forall|j: int| i <= j < n ==> #[trigger] self.slots@[j] == pre.slots@[j],
            decreases n - i,
        {
            let ghost slots0 = self.slots@;
            let matches_name = str_eq(self.slots[i].material_name.as_str(), material_name)
                && !self.slots[i].is_empty();
            if matches_name {
                let q = self.slots[i].quantity;
                let can_add = u32::MAX - q;
                let to_add = if remaining < can_add {
                    remaining
                } else {
                    can_add
                };
                let slot = &mut self.slots[i];
                slot.add(to_add);
                remaining = remaining - to_add;
                proof {
                    lemma_total_update(
                        slots0,
                        i as int,
                        self.slots@[i as int],
                        material_name@,
                    );
                    assert forall|nm: Seq<char>| nm != material_name@ && nm != air_name()
                        implies #[trigger] total_of(self.slots@, nm) == total_of(
                        pre.slots@,
                        nm,
                    ) by {
                        lemma_total_update(slots0, i as int, self.slots@[i as int], nm);
                    }
                }
                if remaining == 0 {
                    proof {
                        lemma_total_nonneg(pre.slots@, material_name@);
                    }
                    return quantity;
                }
            }
            i = i + 1;
        }
        let mut k: usize = 0;
        while k < n
            invariant
                pre == *old(self),
                pre.wf(),
                self.wf(),
                material_name@ != air_name(),
                n == self.slots@.len(),
                n == pre.slots@.len(),
                k <= n,
                self.rows == pre.rows,
                self.columns == pre.columns,
                self.selected_slot == pre.selected_slot,
                remaining <= quantity,
                0 < quantity,
                0 < remaining,
                total_of(self.slots@, material_name@) == total_of(pre.slots@, material_name@) + (
                quantity - remaining),
                forall|nm: Seq<char>|
                    nm != material_name@ && nm != air_name() ==> #[trigger] total_of(
                        self.slots@,
                        nm,
                    ) == total_of(pre.slots@, nm),
                forall|j: int|
                    0 <= j < n ==> !((#[trigger] self.slots@[j]).material_name@ == material_name@
                        && !self.slots@[j].spec_is_empty()) || self.slots@[j].quantity
                        == u32::MAX,
                forall|j: int|
                    0 <= j < k ==> !(#[trigger] self.slots@[j]).spec_is_empty(),
            decreases n - k,
        {
            let ghost slots0 = self.slots@;
            if self.slots[k].is_empty() {
                let to_add = remaining;
                let new_slot = InventorySlot::new(material_name, to_add);
                self.slots.set(k, new_slot);
                remaining = 0;
                proof {
                    lemma_total_update(
                        slots0,
                        k as int,
                        self.slots@[k as int],
                        material_name@,
                    );
                    assert forall|nm: Seq<char>| nm != material_name@ && nm != air_name()
                        implies #[trigger] total_of(self.slots@, nm) == total_of(
                        pre.slots@,
                        nm,
                    ) by {
                        lemma_total_update(slots0, k as int, self.slots@[k as int], nm);
                    }
                }
                return quantity;
            }
            k = k + 1;
        }
        quantity - remaining
    }

    /// Withdraws up to `quantity` units of `name`; returns how many were
    /// actually removed: everything asked for, or the whole stockpile when
    /// it falls short.
    pub fn remove_material(&mut self, material_name: &str, quantity: u32) -> (removed: u32)
        requires
            old(self).wf(),
            total_of(old(self).slots@, material_name@) <= u32::MAX,
        ensures
            final(self).wf(),
            final(self).rows == old(self).rows,
            final(self).columns == old(self).columns,
            final(self).selected_slot == old(self).selected_slot,
            final(self).slots@.len() == old(self).slots@.len(),
            material_name@ == air_name() || quantity == 0 ==> removed == 0 && final(self).slots
                == old(self).slots,
            material_name@ != air_name() && quantity != 0 ==> removed == vstd::math::min(
                quantity as int,
                total_of(old(self).slots@, material_name@),
            ),
            total_of(final(self).slots@, material_name@) == total_of(
                old(self).slots@,
                material_name@,
            ) - if material_name@ == air_name() {
                0
            } else {
                removed as int
            },
            forall|n: Seq<char>|
                n != material_name@ && n != air_name() ==> #[trigger] total_of(
                    final(self).slots@,
                    n,
                ) == total_of(old(self).slots@, n),
    {
        let ghost pre = *self;
        if str_eq(material_name, "air") || quantity == 0 {
            return 0;
        }
        let mut remaining = quantity;
        let n = self.slots.len();
        let mut i: usize = 0;
        while i < n
            invariant
                pre == *old(self),
                pre.wf(),
                self.wf(),
                material_name@ != air_name(),
                n == self.slots@.len(),
                n == pre.slots@.len(),
                i <= n,
                self.rows == pre.rows,
                self.columns == pre.columns,
                self.selected_slot == pre.selected_slot,
                remaining <= quantity,
                0 < quantity,
                0 < remaining,
                total_of(self.slots@, material_name@) == total_of(pre.slots@, material_name@) - (
                quantity - remaining),
                forall|nm: Seq<char>|
                    nm != material_name@ && nm != air_name() ==> #[trigger] total_of(
                        self.slots@,
                        nm,
                    ) == total_of(pre.slots@, nm),
                forall|j: int|
                    0 <= j < i ==> (#[trigger] self.slots@[j]).spec_count(material_name@) == 0,
                forall|j: int|
                    i <= j < n ==> #[trigger] self.slots@[j] == pre.slots@[j],
                total_of(pre.slots@, material_name@) <= u32::MAX,
            decreases n - i,
        {
            let ghost slots0 = self.slots@;
            let matches_name = str_eq(self.slots[i].material_name.as_str(), material_name)
                && !self.slots[i].is_empty();
            if matches_name {
                let slot = &mut self.slots[i];
                let got = slot.remove(remaining);
                remaining = remaining - got;
                proof {
                    lemma_total_update(
                        slots0,
                        i as int,
                        self.slots@[i as int],
                        material_name@,
                    );
                    assert forall|nm: Seq<char>| nm != material_name@ && nm != air_name()
                        implies #[trigger] total_of(self.slots@, nm) == total_of(
                        pre.slots@,
                        nm,
                    ) by {
                        lemma_total_update(slots0, i as int, self.slots@[i as int], nm);
                    }
                }
                if remaining == 0 {
                    proof {
                        lemma_total_nonneg(self.slots@, material_name@);
                    }
                    return quantity;
                }
            }
            i = i + 1;
        }
        proof {
            lemma_total_prefix_zero(self.slots@, material_name@);
        }
        quantity - remaining
    }

    /// Whether at least `quantity` units of `name` are on hand; air and a
    /// zero request are always satisfied.
    pub fn has_material(&self, material_name: &str, quantity: u32) -> (r: bool)
        requires
            self.wf(),
        ensures
            r == (material_name@ == air_name() || quantity == 0 || total_of(
                self.slots@,
                material_name@,
            ) >= quantity),
    {
        if str_eq(material_name, "air") || quantity == 0 {
            return true;
        }
        let n = self.slots.len();
        proof {
            assert(n <= 0x100_0000) by (nonlinear_arith)
                requires
                    n == (self.rows as int) * (self.columns as int),
                    1 <= (self.rows as int) <= 0x1000,
                    1 <= (self.columns as int) <= 0x1000,
            ;
        }
        let mut total: u64 = 0;
        let mut i: usize = 0;
        while i < n
            invariant
                self.wf(),
                material_name@ != air_name(),
                n == self.slots@.len(),
                i <= n,
                total == partial_total(self.slots@, material_name@, i as int),
                total <= 0x100_0000_0000_0000,
                n <= 0x100_0000,
                0 < quantity,
                total < quantity as u64,
            decreases n - i,
        {
            let matches_name = str_eq(self.slots[i].material_name.as_str(), material_name)
                && !self.slots[i].is_empty();
            if matches_name {
                total = total + self.slots[i].quantity as u64;
            }
            proof {
                lemma_partial_total_bound(self.slots@, material_name@, i as int + 1);
            }
            if total >= quantity as u64 {
                proof {
                    lemma_partial_le_total(self.slots@, material_name@, i as int + 1);
                }
                return true;
            }
            i = i + 1;
        }
        proof {
            lemma_partial_is_total(self.slots@, material_name@);
        }
        false
    }

    /// Total units of `name` on hand; air reads as unlimited.
    pub fn get_material_count(&self, material_name: &str) -> (count: u32)
        requires
            self.wf(),
            total_of(self.slots@, material_name@) <= u32::MAX,
        ensures
            material_name@ == air_name() ==> count == u32::MAX,
            material_name@ != air_name() ==> count == total_of(self.slots@, material_name@),
    {
        if str_eq(material_name, "air") {
            return u32::MAX;
        }
        let n = self.slots.len();
        proof {
            assert(n <= 0x100_0000) by (nonlinear_arith)
                requires
                    n == (self.rows as int) * (self.columns as int),
                    1 <= (self.rows as int) <= 0x1000,
                    1 <= (self.columns as int) <= 0x1000,
            ;
        }
        let mut total: u64 = 0;
        let mut i: usize = 0;
        while i < n
            invariant
                self.wf(),
                material_name@ != air_name(),
                n == self.slots@.len(),
                i <= n,
                total == partial_total(self.slots@, material_name@, i as int),
                total <= 0x100_0000_0000_0000,
                n <= 0x100_0000,
            decreases n - i,
        {
            let matches_name = str_eq(self.slots[i].material_name.as_str(), material_name)
                && !self.slots[i].is_empty();
            if matches_name {
                total = total + self.slots[i].quantity as u64;
            }
            proof {
                lemma_partial_total_bound(self.slots@, material_name@, i as int + 1);
            }
            i = i + 1;
        }
        proof {
            lemma_partial_is_total(self.slots@, material_name@);
            lemma_total_nonneg(self.slots@, material_name@);
        }
        total as u32
    }
}

impl Inventory {
    /// Stocks a handful of starting materials in fixed slots, for trying
    /// the edit engine out.
    pub fn initialize_with_test_content(&mut self)
        requires
            old(self).wf(),
        ensures
            final(self).wf(),
            final(self).rows == old(self).rows,
            final(self).columns == old(self).columns,
            final(self).selected_slot == old(self).selected_slot,
            final(self).slots@.len() == old(self).slots@.len(),
            old(self).slots@.len() > 0 ==> final(self).slots@[0].material_name@ == "stone"@
                && final(self).slots@[0].quantity == 64,
            old(self).slots@.len() > 1 ==> final(self).slots@[1].material_name@ == "dirt"@
                && final(self).slots@[1].quantity == 32,
            old(self).slots@.len() > 2 ==> final(self).slots@[2].material_name@ == "grass"@
                && final(self).slots@[2].quantity == 16,
            old(self).slots@.len() > 3 ==> final(self).slots@[3].material_name@ == "wood"@
                && final(self).slots@[3].quantity == 8,
            old(self).slots@.len() > 5 ==> final(self).slots@[5].material_name@ == "glass"@
                && final(self).slots@[5].quantity == 12,
            old(self).slots@.len() > 7 ==> final(self).slots@[7].material_name@ == "sand"@
                && final(self).slots@[7].quantity == 24,
    {
        self.set_slot(0, InventorySlot::new("stone", 64));
        self.set_slot(1, InventorySlot::new("dirt", 32));
        self.set_slot(2, InventorySlot::new("grass", 16));
        self.set_slot(3, InventorySlot::new("wood", 8));
        self.set_slot(5, InventorySlot::new("glass", 12));
        self.set_slot(7, InventorySlot::new("sand", 24));
    }
}

/// Total units of `name` among the first `i` slots.
pub open spec fn partial_total(slots: Seq<InventorySlot>, name: Seq<char>, i: int) -> int
    decreases i,
{
    if i <= 0 {
        0
    } else {
        partial_total(slots, name, i - 1) + slots[i - 1].spec_count(name)
    }
}

/// The partial total over the whole sequence is the total.
proof fn lemma_partial_is_total(slots: Seq<InventorySlot>, name: Seq<char>)
    ensures
        partial_total(slots, name, slots.len() as int) == total_of(slots, name),
    decreases slots.len(),
{
    if slots.len() > 0 {
        lemma_partial_is_total(slots.drop_last(), name);
        lemma_partial_total_prefix(slots, name, slots.len() as int - 1);
    }
}

/// A partial total only reads the prefix, so dropping the last slot does
/// not change it.
proof fn lemma_partial_total_prefix(slots: Seq<InventorySlot>, name: Seq<char>, i: int)
    requires
        0 <= i < slots.len(),
    ensures
        partial_total(slots, name, i) == partial_total(slots.drop_last(), name, i),
    decreases i,
{
    if i > 0 {
        lemma_partial_total_prefix(slots, name, i - 1);
    }
}

/// Partial totals stay within the slot-count times the stack cap.
proof fn lemma_partial_total_bound(slots: Seq<InventorySlot>, name: Seq<char>, i: int)
    requires
        0 <= i <= slots.len(),
        slots.len() <= 0x100_0000,
    ensures
        0 <= partial_total(slots, name, i) <= i * 0x1_0000_0000,
    decreases i,
{
    if i > 0 {
        lemma_partial_total_bound(slots, name, i - 1);
    }
}

/// A partial total never exceeds the full total.
proof fn lemma_partial_le_total(slots: Seq<InventorySlot>, name: Seq<char>, i: int)
    requires
        0 <= i <= slots.len(),
    ensures
        partial_total(slots, name, i) <= total_of(slots, name),
    decreases slots.len(),
{
    if slots.len() > 0 {
        if i == slots.len() {
            lemma_partial_is_total(slots, name);
        } else {
            lemma_partial_le_total(slots.drop_last(), name, i);
            lemma_partial_total_prefix(slots, name, i);
        }
    }
}

/// When every slot's count of `name` is zero, the total is zero.
proof fn lemma_total_prefix_zero(slots: Seq<InventorySlot>, name: Seq<char>)
    requires
        forall|j: int| 0 <= j < slots.len() ==> (#[trigger] slots[j]).spec_count(name) == 0,
    ensures
        total_of(slots, name) == 0,
    decreases slots.len(),
{
    if slots.len() > 0 {
        lemma_total_prefix_zero(slots.drop_last(), name);
    }
}

/// Euclidean remainder as a spec value.
pub open spec fn euclid_mod(a: int, m: int) -> int {
    a % m
}

/// Selection wrap-around stays inside the grid.
proof fn lemma_selection_math(sel: int, rows: int, cols: int, dr: int, dc: int)
    requires
        1 <= rows <= 0x1000,
        1 <= cols <= 0x1000,
        0 <= sel < rows * cols,
        -0x1000 <= dr <= 0x1000,
        -0x1000 <= dc <= 0x1000,
    ensures
        0 <= sel / cols < rows,
        0 <= sel % cols < cols,
        0 <= (sel / cols + dr) % rows < rows,
        0 <= (sel % cols + dc) % cols < cols,
        ((sel / cols + dr) % rows) * cols + (sel % cols + dc) % cols < rows * cols,
{
    vstd::arithmetic::div_mod::lemma_mod_division_less_than_divisor(sel % cols + dc, cols);
    vstd::arithmetic::div_mod::lemma_mod_division_less_than_divisor(sel / cols + dr, rows);
    vstd::arithmetic::div_mod::lemma_mod_division_less_than_divisor(sel, cols);
    lemma_quotient_below(sel, rows, cols);
    let nr = (sel / cols + dr) % rows;
    let nc = (sel % cols + dc) % cols;
    assert(nr * cols + nc < rows * cols) by (nonlinear_arith)
        requires
            0 <= nr <= rows - 1,
            0 <= nc < cols,
            1 <= cols,
            1 <= rows,
    ;
}

/// The row index of a slot lies below the row count.
proof fn lemma_quotient_below(sel: int, rows: int, cols: int)
    requires
        1 <= rows,
        1 <= cols,
        0 <= sel < rows * cols,
    ensures
        0 <= sel / cols < rows,
{
    vstd::arithmetic::div_mod::lemma_fundamental_div_mod(sel, cols);
    vstd::arithmetic::div_mod::lemma_mod_division_less_than_divisor(sel, cols);
    let q = sel / cols;
    let r = sel % cols;
    assert(0 <= q < rows) by (nonlinear_arith)
        requires
            1 <= cols,
            sel == cols * q + r,
            0 <= r < cols,
            0 <= sel < rows * cols,
    ;
}

} // verus!
