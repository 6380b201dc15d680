//! Perimeter slots of a rectangular footprint.
//!
//! A `w`×`h` footprint has `2·(w+h)` slots, one per unit segment of its
//! boundary. They are numbered from the bottom-left corner counter-clockwise:
//! along the bottom edge left to right, up the right edge, along the top edge
//! right to left, and down the left edge. Positions are doubled, so that the
//! midpoint of a segment has integer coordinates.

use vstd::prelude::*;
use crate::grid::WH;

verus! {

/// The number of slots around a footprint.
pub open spec fn perimeter_len(size: WH) -> int {
    2 * (size.0 + size.1)
}

/// The edge a slot lies on: 0 bottom, 1 right, 2 top, 3 left.
pub open spec fn slot_edge(size: WH, slot: int) -> int {
    if slot < size.0 {
        0
    } else if slot < size.0 + size.1 {
        1
    } else if slot < 2 * size.0 + size.1 {
        2
    } else {
        3
    }
}

/// Twice the midpoint of a slot, relative to the footprint's bottom-left
/// corner.
pub open spec fn slot_double_midpoint(size: WH, slot: int) -> (int, int) {
    let w = size.0 as int;
    let h = size.1 as int;
    if slot < w {
        (2 * slot + 1, 0)
    } else if slot < w + h {
        (2 * w, 2 * (slot - w) + 1)
    } else if slot < 2 * w + h {
        (2 * (2 * w + h - slot) - 1, 2 * h)
    } else {
        (0, 2 * (2 * w + 2 * h - slot) - 1)
    }
}

/// The slot whose doubled midpoint is `p`, if `p` is the midpoint of a slot.
pub open spec fn slot_at(size: WH, p: (int, int)) -> Option<int> {
    let w = size.0 as int;
    let h = size.1 as int;
    let (x, y) = p;
    if y == 0 && x % 2 == 1 && 0 < x < 2 * w {
        Some((x - 1) / 2)
    } else if x == 2 * w && y % 2 == 1 && 0 < y < 2 * h {
        Some(w + (y - 1) / 2)
    } else if y == 2 * h && x % 2 == 1 && 0 < x < 2 * w {
        Some(w + h + (w - 1 - (x - 1) / 2))
    } else if x == 0 && y % 2 == 1 && 0 < y < 2 * h {
        Some(2 * w + h + (h - 1 - (y - 1) / 2))
    } else {
        None
    }
}

/// Every slot of a footprint that covers at least one cell is found again at
/// its own midpoint. (With no width or no height, opposite edges coincide.)
pub proof fn lemma_slot_at_midpoint(size: WH, slot: int)
    requires
        size.0 > 0,
        size.1 > 0,
        0 <= slot < perimeter_len(size),
    ensures
        slot_at(size, slot_double_midpoint(size, slot)) == Some(slot),
{
    let w = size.0 as int;
    let h = size.1 as int;
    if slot < w {
    } else if slot < w + h {
    } else if slot < 2 * w + h {
    } else {
    }
}

/// A point at which a slot is found is the midpoint of that slot and, where
/// the footprint covers at least one cell, of no other slot.
pub proof fn lemma_slot_at_is_midpoint(size: WH, p: (int, int))
    requires
        slot_at(size, p) is Some,
    ensures
        0 <= slot_at(size, p).unwrap() < perimeter_len(size),
        slot_double_midpoint(size, slot_at(size, p).unwrap()) == p,
        size.0 > 0 && size.1 > 0 ==> forall|k: int|
            0 <= k < perimeter_len(size) && slot_double_midpoint(size, k) == p ==> k == slot_at(
                size,
                p,
            ).unwrap(),
{
    if size.0 > 0 && size.1 > 0 {
        assert forall|k: int|
            0 <= k < perimeter_len(size) && slot_double_midpoint(size, k) == p implies k
            == slot_at(size, p).unwrap() by {
            lemma_slot_at_midpoint(size, k);
        }
    }
}

/// The edge of a slot: 0 bottom, 1 right, 2 top, 3 left.
pub fn edge_of_slot(size: WH, slot: u64) -> (edge: u8)
    ensures
        edge == slot_edge(size, slot as int),
{
    let w: u64 = size.0 as u64;
    let h: u64 = size.1 as u64;
    if slot < w {
        0
    } else if slot < w + h {
        1
    } else if slot < 2 * w + h {
        2
    } else {
        3
    }
}

/// Twice the midpoint of a slot, relative to the footprint's bottom-left
/// corner.
pub fn slot_double_position(size: WH, slot: u64) -> (p: (i64, i64))
    requires
        slot < perimeter_len(size),
    ensures
        (p.0 as int, p.1 as int) == slot_double_midpoint(size, slot as int),
{
    let w: i64 = size.0 as i64;
    let h: i64 = size.1 as i64;
    let k: i64 = slot as i64;
    if k < w {
        (2 * k + 1, 0)
    } else if k < w + h {
        (2 * w, 2 * (k - w) + 1)
    } else if k < 2 * w + h {
        (2 * (2 * w + h - k) - 1, 2 * h)
    } else {
        (0, 2 * (2 * w + 2 * h - k) - 1)
    }
}

/// The slot whose doubled midpoint is `p`, if there is one.
pub fn slot_at_double_position(size: WH, p: (i64, i64)) -> (slot: Option<u64>)
    ensures
        match slot_at(size, (p.0 as int, p.1 as int)) {
            Some(k) => slot == Some(k as u64) && 0 <= k < perimeter_len(size),
            None => slot is None,
        },
{
    let w: i64 = size.0 as i64;
    let h: i64 = size.1 as i64;
    let (x, y) = p;
    if y == 0 && 0 < x && x < 2 * w && x % 2 == 1 {
        Some(((x - 1) / 2) as u64)
    } else if x == 2 * w && 0 < y && y < 2 * h && y % 2 == 1 {
        Some((w + (y - 1) / 2) as u64)
    } else if y == 2 * h && 0 < x && x < 2 * w && x % 2 == 1 {
        Some((w + h + (w - 1 - (x - 1) / 2)) as u64)
    } else if x == 0 && 0 < y && y < 2 * h && y % 2 == 1 {
        Some((2 * w + h + (h - 1 - (y - 1) / 2)) as u64)
    } else {
        None
    }
}

} // verus!
