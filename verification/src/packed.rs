//! A cell as one integer.
//!
//! The hash sets of the step on vectors and the tally of the step in one pass never
//! leave the library. They are keyed by a `u64` that stands for a cell: vstd describes
//! such a collection in full, so that nothing about it has to be taken on trust. Every
//! cell has its own key and every key its cell.
use vstd::prelude::*;

verus! {

/// The key of the cell `c`: its two coordinates, counted from the lowest one, side by
/// side in one number.
pub open spec fn key_of(c: (i32, i32)) -> u64 {
    ((c.0 - i32::MIN) * 0x1_0000_0000 + (c.1 - i32::MIN)) as u64
}

/// Different cells have different keys.
pub proof fn lemma_keys_differ(a: (i32, i32), b: (i32, i32))
    ensures
        key_of(a) == key_of(b) <==> a == b,
{
}

/// The cells whose keys `keys` holds.
pub open spec fn cells_of(keys: Set<u64>) -> Set<(i32, i32)> {
    Set::new(|c: (i32, i32)| keys.contains(key_of(c)))
}

/// No key, no cell.
pub proof fn lemma_cells_of_nothing()
    ensures
        cells_of(Set::empty()) == Set::<(i32, i32)>::empty(),
{
    assert(cells_of(Set::empty()) =~= Set::<(i32, i32)>::empty());
}

/// One more key is one more cell, the cell of that key.
pub proof fn lemma_cells_of_insert(keys: Set<u64>, c: (i32, i32))
    ensures
        cells_of(keys.insert(key_of(c))) == cells_of(keys).insert(c),
{
    assert forall|d: (i32, i32)|
        cells_of(keys.insert(key_of(c))).contains(d) <==> cells_of(keys).insert(c).contains(d) by {
        lemma_keys_differ(d, c);
    }
    assert(cells_of(keys.insert(key_of(c))) =~= cells_of(keys).insert(c));
}

/// Computes the key of `cell`.
pub fn pack(cell: &(i32, i32)) -> (key: u64)
    ensures
        key == key_of(*cell),
{
    let across: u64 = (cell.0 as i64 - i32::MIN as i64) as u64;
    let along: u64 = (cell.1 as i64 - i32::MIN as i64) as u64;
    across * 0x1_0000_0000 + along
}

/// Finds the cell that `key` stands for.
pub fn unpack(key: u64) -> (cell: (i32, i32))
    ensures
        key_of(cell) == key,
{
    let across: u64 = key / 0x1_0000_0000;
    let along: u64 = key % 0x1_0000_0000;
    ((across as i64 + i32::MIN as i64) as i32, (along as i64 + i32::MIN as i64) as i32)
}

} // verus!
