//! A sparse grid of items with rectangular footprints.

use vstd::prelude::*;
use fnv::FnvHashMap;
use crate::math::Vec2i;
use crate::perimeter::slot_at;
use crate::perimeter::slot_at_double_position;
use crate::tables::map_get;
use crate::tables::map_get_mut;
use crate::tables::map_insert;
use crate::tables::map_keys;
use crate::tables::map_remove;

verus! {

/// A cell of the grid, or the bottom-left cell of a footprint.
pub type XY = (i32, i32);

/// Width and height of a footprint, in cells.
pub type WH = (u32, u32);

/// Whether `cell` lies in the footprint of the given origin and size.
pub open spec fn covers(origin: XY, size: WH, cell: XY) -> bool {
    &&& origin.0 <= cell.0 < origin.0 + size.0
    &&& origin.1 <= cell.1 < origin.1 + size.1
}

/// Whether every cell of the footprint has coordinates that fit in `i32`.
pub open spec fn footprint_fits(origin: XY, size: WH) -> bool {
    &&& origin.0 + size.0 <= 0x8000_0000
    &&& origin.1 + size.1 <= 0x8000_0000
}

/// Whether a footprint meets the box `[min_x, max_x] × [min_y, max_y]`, edges
/// included on both sides.
pub open spec fn meets_bounds(
    origin: XY,
    size: WH,
    min_x: int,
    max_x: int,
    min_y: int,
    max_y: int,
) -> bool {
    &&& origin.0 + size.0 >= min_x
    &&& origin.0 <= max_x
    &&& origin.1 + size.1 >= min_y
    &&& origin.1 <= max_y
}

/// The order in which cells of a box are listed: column by column, each
/// column bottom to top.
pub open spec fn cell_before(a: XY, b: XY) -> bool {
    a.0 < b.0 || (a.0 == b.0 && a.1 < b.1)
}

/// The cell entered by a half step in direction `direction` from the doubled
/// position `double_position`.
pub open spec fn touched_cell(double_position: (i64, i64), direction: Vec2i) -> (int, int) {
    ((double_position.0 + direction.x) / 2, (double_position.1 + direction.y) / 2)
}

/// The cells of a footprint.
pub open spec fn footprint(origin: XY, size: WH) -> Set<XY> {
    Set::new(|c: XY| covers(origin, size, c))
}

/// What a grid holds: the records of its items by id, and the id of the item
/// that covers each occupied cell.
pub struct GridModel<T> {
    pub items: Map<u64, (T, XY, WH)>,
    pub cells: Map<XY, u64>,
    pub next_id: nat,
}

impl<T> GridModel<T> {
    /// Every occupied cell belongs to the footprint of the item it names,
    /// every cell of an item's footprint names that item (so no two
    /// footprints overlap), and ids are never reused.
    pub open spec fn wf(self) -> bool {
        &&& forall|c: XY| #[trigger]
            self.cells.contains_key(c) ==> self.items.contains_key(self.cells[c]) && covers(
                self.items[self.cells[c]].1,
                self.items[self.cells[c]].2,
                c,
            )
        &&& forall|id: u64, c: XY|
            self.items.contains_key(id) && #[trigger] covers(
                self.items[id].1,
                self.items[id].2,
                c,
            ) ==> self.cells.contains_key(c) && self.cells[c] == id
        &&& forall|id: u64| #[trigger]
            self.items.contains_key(id) ==> id < self.next_id && footprint_fits(
                self.items[id].1,
                self.items[id].2,
            )
        &&& self.next_id <= u64::MAX
    }

    pub open spec fn empty() -> GridModel<T> {
        GridModel { items: Map::empty(), cells: Map::empty(), next_id: 0 }
    }

    /// The record of the item that covers `cell`.
    pub open spec fn get(self, cell: XY) -> Option<(T, XY, WH)> {
        if self.cells.contains_key(cell) {
            Some(self.items[self.cells[cell]])
        } else {
            None
        }
    }

    /// The items whose footprint meets a box.
    pub open spec fn ids_in_bounds(self, min_x: int, max_x: int, min_y: int, max_y: int) -> Set<
        u64,
    > {
        Set::new(
            |id: u64|
                self.items.contains_key(id) && meets_bounds(
                    self.items[id].1,
                    self.items[id].2,
                    min_x,
                    max_x,
                    min_y,
                    max_y,
                ),
        )
    }

    /// The origins and sizes of the items whose footprint meets a box.
    pub open spec fn footprints_in_bounds(
        self,
        min_x: int,
        max_x: int,
        min_y: int,
        max_y: int,
    ) -> Set<(XY, WH)> {
        Set::new(
            |f: (XY, WH)|
                exists|id: u64|
                    #[trigger] self.items.contains_key(id) && self.items[id].1 == f.0
                        && self.items[id].2 == f.1 && meets_bounds(
                        f.0,
                        f.1,
                        min_x,
                        max_x,
                        min_y,
                        max_y,
                    ),
        )
    }

    /// The item entered by a half step from a doubled position, and the slot
    /// of its perimeter whose midpoint is that position: `None` where the
    /// cell entered is empty, or the position is no slot's midpoint.
    pub open spec fn touching(self, double_position: (i64, i64), direction: Vec2i) -> Option<
        (u64, int),
    > {
        let (cx, cy) = touched_cell(double_position, direction);
        if i32::MIN <= cx <= i32::MAX && i32::MIN <= cy <= i32::MAX && self.cells.contains_key(
            (cx as i32, cy as i32),
        ) {
            let id = self.cells[(cx as i32, cy as i32)];
            let (_t, origin, size) = self.items[id];
            match slot_at(
                size,
                (double_position.0 - 2 * origin.0, double_position.1 - 2 * origin.1),
            ) {
                Some(slot) => Some((id, slot)),
                None => None,
            }
        } else {
            None
        }
    }

    /// The grid with another payload in the record of item `id`.
    pub open spec fn with_payload(self, id: u64, t: T) -> GridModel<T> {
        GridModel {
            items: self.items.insert(id, (t, self.items[id].1, self.items[id].2)),
            cells: self.cells,
            next_id: self.next_id,
        }
    }

    /// The grid made by placing the items of a sequence one after another on
    /// an empty grid.
    pub open spec fn from_seq(records: Seq<(T, XY, WH)>) -> GridModel<T>
        decreases records.len(),
    {
        if records.len() == 0 {
            GridModel::empty()
        } else {
            GridModel::from_seq(records.drop_last()).insert(
                records.last().0,
                records.last().1,
                records.last().2,
            )
        }
    }

    /// The grid without the items named in `ids`, and without their cells.
    pub open spec fn without(self, ids: Set<u64>) -> GridModel<T> {
        GridModel {
            items: self.items.remove_keys(ids),
            cells: Map::new(
                |c: XY| self.cells.contains_key(c) && !ids.contains(self.cells[c]),
                |c: XY| self.cells[c],
            ),
            next_id: self.next_id,
        }
    }

    /// The grid without the item that covers `cell`, if there is one.
    pub open spec fn remove(self, cell: XY) -> GridModel<T> {
        if self.cells.contains_key(cell) {
            self.without(set![self.cells[cell]])
        } else {
            self
        }
    }

    /// The items that cover at least one cell of `region`.
    pub open spec fn owners(self, region: Set<XY>) -> Set<u64> {
        Set::new(
            |id: u64|
                exists|c: XY|
                    #[trigger] region.contains(c) && self.cells.contains_key(c) && self.cells[c]
                        == id,
        )
    }

    /// The items with at least one cell in the given footprint.
    pub open spec fn overlapped(self, origin: XY, size: WH) -> Set<u64> {
        self.owners(footprint(origin, size))
    }

    /// The grid after placing `t`: every item that the new footprint overlaps
    /// is gone whole, and the new item, under a fresh id, covers its
    /// footprint.
    pub open spec fn insert(self, t: T, origin: XY, size: WH) -> GridModel<T> {
        let gone = self.overlapped(origin, size);
        let id = self.next_id as u64;
        GridModel {
            items: self.items.remove_keys(gone).insert(id, (t, origin, size)),
            cells: Map::new(
                |c: XY|
                    covers(origin, size, c) || (self.cells.contains_key(c) && !gone.contains(
                        self.cells[c],
                    )),
                |c: XY|
                    if covers(origin, size, c) {
                        id
                    } else {
                        self.cells[c]
                    },
            ),
            next_id: self.next_id + 1,
        }
    }
}

/// The cells of a footprint that a row-by-row scan from the bottom-left has
/// passed when it stands at column `x` of row `y`.
spec fn scanned(origin: XY, size: WH, y: int, x: int) -> Set<XY> {
    Set::new(|c: XY| covers(origin, size, c) && (c.1 < y || (c.1 == y && c.0 < x)))
}

/// One more cell in a region adds the item on that cell to its owners.
proof fn lemma_owners_insert<T>(m: GridModel<T>, region: Set<XY>, c: XY)
    ensures
        m.owners(region.insert(c)) == (if m.cells.contains_key(c) {
            m.owners(region).insert(m.cells[c])
        } else {
            m.owners(region)
        }),
{
    let lhs = m.owners(region.insert(c));
    let rhs = if m.cells.contains_key(c) {
        m.owners(region).insert(m.cells[c])
    } else {
        m.owners(region)
    };
    assert forall|id: u64| lhs.contains(id) implies rhs.contains(id) by {
        let w = choose|w: XY|
            #[trigger] region.insert(c).contains(w) && m.cells.contains_key(w) && m.cells[w] == id;
        if w != c {
            assert(region.contains(w));
        }
    }
    assert forall|id: u64| rhs.contains(id) implies lhs.contains(id) by {
        if m.owners(region).contains(id) {
            let w = choose|w: XY|
                #[trigger] region.contains(w) && m.cells.contains_key(w) && m.cells[w] == id;
            assert(region.insert(c).contains(w));
        } else {
            assert(region.insert(c).contains(c));
        }
    }
    assert(lhs =~= rhs);
}

/// Removing the item on one more cell, after the owners of a region are
/// gone, leaves the grid without the owners of the larger region.
proof fn lemma_evict_step<T>(m: GridModel<T>, region: Set<XY>, c: XY)
    requires
        m.wf(),
    ensures
        m.without(m.owners(region)).remove(c) == m.without(m.owners(region.insert(c))),
{
    lemma_owners_insert(m, region, c);
    let gone = m.owners(region);
    let now = m.without(gone);
    let next = m.without(m.owners(region.insert(c)));
    if now.cells.contains_key(c) {
        let id = m.cells[c];
        let r = now.without(set![id]);
        assert(r.items =~= next.items);
        assert(r.cells =~= next.cells);
    } else {
        if m.cells.contains_key(c) {
            assert(gone.contains(m.cells[c]));
            assert(gone.insert(m.cells[c]) =~= gone);
        }
    }
}

/// Placing an item on a grid leaves a grid.
pub proof fn lemma_insert_wf<T>(m: GridModel<T>, t: T, origin: XY, size: WH)
    requires
        m.wf(),
        footprint_fits(origin, size),
        m.next_id < u64::MAX,
    ensures
        m.insert(t, origin, size).wf(),
{
    let r = m.insert(t, origin, size);
    let gone = m.overlapped(origin, size);
    let fresh = m.next_id as u64;
    assert forall|c: XY| #[trigger] r.cells.contains_key(c) implies r.items.contains_key(
        r.cells[c],
    ) && covers(r.items[r.cells[c]].1, r.items[r.cells[c]].2, c) by {
        if !covers(origin, size, c) {
            assert(m.cells.contains_key(c));
            assert(m.items.contains_key(m.cells[c]));
        }
    }
    assert forall|id: u64, c: XY|
        r.items.contains_key(id) && #[trigger] covers(
            r.items[id].1,
            r.items[id].2,
            c,
        ) implies r.cells.contains_key(c) && r.cells[c] == id by {
        if id != fresh {
            assert(m.items.contains_key(id));
            assert(covers(m.items[id].1, m.items[id].2, c));
            assert(m.cells.contains_key(c) && m.cells[c] == id);
            if covers(origin, size, c) {
                assert(footprint(origin, size).contains(c));
                assert(gone.contains(id));
            }
        }
    }
    assert forall|id: u64| #[trigger] r.items.contains_key(id) implies id < r.next_id
        && footprint_fits(r.items[id].1, r.items[id].2) by {
        if id != fresh {
            assert(m.items.contains_key(id));
        }
    }
}

/// Taking whole items out of a grid leaves a grid.
pub proof fn lemma_without_wf<T>(m: GridModel<T>, ids: Set<u64>)
    requires
        m.wf(),
    ensures
        m.without(ids).wf(),
{
    let r = m.without(ids);
    assert forall|c: XY| #[trigger] r.cells.contains_key(c) implies r.items.contains_key(
        r.cells[c],
    ) && covers(r.items[r.cells[c]].1, r.items[r.cells[c]].2, c) by {
        assert(m.cells.contains_key(c));
    }
    assert forall|id: u64, c: XY|
        r.items.contains_key(id) && #[trigger] covers(
            r.items[id].1,
            r.items[id].2,
            c,
        ) implies r.cells.contains_key(c) && r.cells[c] == id by {
        assert(m.items.contains_key(id));
        assert(covers(m.items[id].1, m.items[id].2, c));
    }
    assert forall|id: u64| #[trigger] r.items.contains_key(id) implies id < r.next_id
        && footprint_fits(r.items[id].1, r.items[id].2) by {
        assert(m.items.contains_key(id));
    }
}

/// Another payload in a record leaves a grid a grid.
pub proof fn lemma_with_payload_wf<T>(m: GridModel<T>, id: u64, t: T)
    requires
        m.wf(),
        m.items.contains_key(id),
    ensures
        m.with_payload(id, t).wf(),
{
    let r = m.with_payload(id, t);
    assert forall|c: XY| #[trigger] r.cells.contains_key(c) implies r.items.contains_key(
        r.cells[c],
    ) && covers(r.items[r.cells[c]].1, r.items[r.cells[c]].2, c) by {
        assert(m.cells.contains_key(c));
    }
    assert forall|j: u64, c: XY|
        r.items.contains_key(j) && #[trigger] covers(
            r.items[j].1,
            r.items[j].2,
            c,
        ) implies r.cells.contains_key(c) && r.cells[c] == j by {
        assert(m.items.contains_key(j));
        assert(covers(m.items[j].1, m.items[j].2, c));
    }
    assert forall|j: u64| #[trigger] r.items.contains_key(j) implies j < r.next_id
        && footprint_fits(r.items[j].1, r.items[j].2) by {
        assert(m.items.contains_key(j));
    }
}

/// Half of `v`, rounded down.
fn floor_half(v: i128) -> (half: i128)
    requires
        -0x1_0000_0000_0000_0000 <= v <= 0x1_0000_0000_0000_0000,
    ensures
        half == v / 2,
{
    if v >= 0 {
        v / 2
    } else {
        -((1 - v) / 2)
    }
}

/// Whether every cell of a footprint has coordinates that fit in `i32`: what
/// an insertion asks of its footprint.
pub fn footprint_fits_in_grid(origin: XY, size: WH) -> (fits: bool)
    ensures
        fits == footprint_fits(origin, size),
{
    origin.0 as i64 + size.0 as i64 <= 0x8000_0000 && origin.1 as i64 + size.1 as i64
        <= 0x8000_0000
}

/// The cell entered by a half step from a doubled position, where its
/// coordinates are those of a cell.
fn cell_touched(double_position: (i64, i64), direction: Vec2i) -> (cell: Option<XY>)
    ensures
        ({
            let (cx, cy) = touched_cell(double_position, direction);
            if i32::MIN <= cx <= i32::MAX && i32::MIN <= cy <= i32::MAX {
                cell == Some((cx as i32, cy as i32))
            } else {
                cell is None
            }
        }),
{
    let cx: i128 = floor_half(double_position.0 as i128 + direction.x as i128);
    let cy: i128 = floor_half(double_position.1 as i128 + direction.y as i128);
    if cx < -0x8000_0000 || cx > 0x7fff_ffff || cy < -0x8000_0000 || cy > 0x7fff_ffff {
        None
    } else {
        Some((cx as i32, cy as i32))
    }
}

/// The slot of a footprint whose midpoint is at a doubled position of the
/// grid.
fn slot_touched(double_position: (i64, i64), origin: XY, size: WH) -> (slot: Option<u64>)
    ensures
        match slot_at(size, (double_position.0 - 2 * origin.0, double_position.1 - 2 * origin.1)) {
            Some(k) => slot == Some(k as u64) && 0 <= k <= u64::MAX,
            None => slot is None,
        },
{
    let lx: i128 = double_position.0 as i128 - 2 * (origin.0 as i128);
    let ly: i128 = double_position.1 as i128 - 2 * (origin.1 as i128);
    if lx < 0 || lx > 0x2_0000_0000 || ly < 0 || ly > 0x2_0000_0000 {
        None
    } else {
        slot_at_double_position(size, (lx as i64, ly as i64))
    }
}

/// Takes every cell of a footprint out of the cell map.
fn clear_footprint(cells: &mut FnvHashMap<XY, u64>, origin: XY, size: WH)
    requires
        footprint_fits(origin, size),
    ensures
        final(cells)@ == old(cells)@.remove_keys(footprint(origin, size)),
{
    let x0: i64 = origin.0 as i64;
    let y0: i64 = origin.1 as i64;
    let x1: i64 = x0 + size.0 as i64;
    let y1: i64 = y0 + size.1 as i64;
    let mut y: i64 = y0;
    while y < y1
        invariant
            x0 == origin.0,
            y0 == origin.1,
            x1 == origin.0 + size.0,
            y1 == origin.1 + size.1,
            footprint_fits(origin, size),
            y0 <= y,
            y <= y1 || y == y0,
            cells@ == old(cells)@.remove_keys(scanned(origin, size, y as int, x0 as int)),
        decreases y1 - y,
    {
        let mut x: i64 = x0;
        while x < x1
            invariant
                x0 == origin.0,
                y0 == origin.1,
                x1 == origin.0 + size.0,
                y1 == origin.1 + size.1,
                footprint_fits(origin, size),
                y0 <= y < y1,
                x0 <= x,
                x <= x1 || x == x0,
                cells@ == old(cells)@.remove_keys(scanned(origin, size, y as int, x as int)),
            decreases x1 - x,
        {
            let cell: XY = (x as i32, y as i32);
            map_remove(cells, &cell);
            proof {
                assert(scanned(origin, size, y as int, x + 1) =~= scanned(
                    origin,
                    size,
                    y as int,
                    x as int,
                ).insert(cell));
                assert(cells@ =~= old(cells)@.remove_keys(scanned(origin, size, y as int, x + 1)));
            }
            x = x + 1;
        }
        proof {
            assert(scanned(origin, size, y + 1, x0 as int) =~= scanned(
                origin,
                size,
                y as int,
                x as int,
            ));
        }
        y = y + 1;
    }
    proof {
        assert(scanned(origin, size, y as int, x0 as int) =~= footprint(origin, size));
    }
}

/// Makes every cell of a footprint name `id`.
fn fill_footprint(cells: &mut FnvHashMap<XY, u64>, origin: XY, size: WH, id: u64)
    requires
        footprint_fits(origin, size),
    ensures
        final(cells)@ == Map::new(
            |c: XY| covers(origin, size, c) || old(cells)@.contains_key(c),
            |c: XY|
                if covers(origin, size, c) {
                    id
                } else {
                    old(cells)@[c]
                },
        ),
{
    let x0: i64 = origin.0 as i64;
    let y0: i64 = origin.1 as i64;
    let x1: i64 = x0 + size.0 as i64;
    let y1: i64 = y0 + size.1 as i64;
    let mut y: i64 = y0;
    while y < y1
        invariant
            x0 == origin.0,
            y0 == origin.1,
            x1 == origin.0 + size.0,
            y1 == origin.1 + size.1,
            footprint_fits(origin, size),
            y0 <= y,
            y <= y1 || y == y0,
            cells@ == Map::new(
                |c: XY|
                    scanned(origin, size, y as int, x0 as int).contains(c) || old(
                        cells,
                    )@.contains_key(c),
                |c: XY|
                    if scanned(origin, size, y as int, x0 as int).contains(c) {
                        id
                    } else {
                        old(cells)@[c]
                    },
            ),
        decreases y1 - y,
    {
        let mut x: i64 = x0;
        while x < x1
            invariant
                x0 == origin.0,
                y0 == origin.1,
                x1 == origin.0 + size.0,
                y1 == origin.1 + size.1,
                footprint_fits(origin, size),
                y0 <= y < y1,
                x0 <= x,
                x <= x1 || x == x0,
                cells@ == Map::new(
                    |c: XY|
                        scanned(origin, size, y as int, x as int).contains(c) || old(
                            cells,
                        )@.contains_key(c),
                    |c: XY|
                        if scanned(origin, size, y as int, x as int).contains(c) {
                            id
                        } else {
                            old(cells)@[c]
                        },
                ),
            decreases x1 - x,
        {
            let cell: XY = (x as i32, y as i32);
            map_insert(cells, cell, id);
            proof {
                assert(scanned(origin, size, y as int, x + 1) =~= scanned(
                    origin,
                    size,
                    y as int,
                    x as int,
                ).insert(cell));
                assert(cells@ =~= Map::new(
                    |c: XY|
                        scanned(origin, size, y as int, x + 1).contains(c) || old(
                            cells,
                        )@.contains_key(c),
                    |c: XY|
                        if scanned(origin, size, y as int, x + 1).contains(c) {
                            id
                        } else {
                            old(cells)@[c]
                        },
                ));
            }
            x = x + 1;
        }
        proof {
            assert(scanned(origin, size, y + 1, x0 as int) =~= scanned(
                origin,
                size,
                y as int,
                x as int,
            ));
        }
        y = y + 1;
    }
    proof {
        assert(scanned(origin, size, y as int, x0 as int) =~= footprint(origin, size));
        assert(cells@ =~= Map::new(
            |c: XY| covers(origin, size, c) || old(cells)@.contains_key(c),
            |c: XY|
                if covers(origin, size, c) {
                    id
                } else {
                    old(cells)@[c]
                },
        ));
    }
}

/// Sparse grid for storing things that do not necessarily take up a 1x1 slot.
#[derive(Debug)]
pub struct Grid<T> {
    /// Map from internal indexes to items, their minimal XY coordinates, and
    /// their sizes
    items: FnvHashMap<u64, (T, XY, WH)>,
    /// Map from XY coordinates to internal indexes
    grid: FnvHashMap<XY, u64>,
    next_idx: u64,
}

impl<T> View for Grid<T> {
    type V = GridModel<T>;

    closed spec fn view(&self) -> GridModel<T> {
        GridModel { items: self.items@, cells: self.grid@, next_id: self.next_idx as nat }
    }
}

impl<T> Grid<T> {
    /// The invariant of the grid; see [`GridModel::wf`].
    pub open spec fn wf(&self) -> bool {
        self@.wf()
    }

    /// Creates an empty grid
    pub fn new() -> (g: Grid<T>)
        ensures
            g.wf(),
            g@ == GridModel::<T>::empty(),
    {
        Grid { items: FnvHashMap::default(), grid: FnvHashMap::default(), next_idx: 0 }
    }

    /// Gets the item at a specific position, along with that item's minimal
    /// XY coordinates and size.
    pub fn get(&self, position: XY) -> (found: Option<&(T, XY, WH)>)
        requires
            self.wf(),
        ensures
            match found {
                Some(record) => self@.get(position) == Some(*record),
                None => self@.get(position) is None,
            },
    {
        match map_get(&self.grid, &position) {
            Some(id) => map_get(&self.items, id),
            None => None,
        }
    }

    /// Gets the items whose footprint meets the box `[min_x, max_x] × [min_y,
    /// max_y]`, each once, in no particular order.
    pub fn get_in_bounds(&self, min_x: i64, max_x: i64, min_y: i64, max_y: i64) -> (found: Vec<
        &(T, XY, WH),
    >)
        requires
            self.wf(),
        ensures
            exists|ids: Seq<u64>|
                {
                    &&& ids.no_duplicates()
                    &&& ids.to_set() == self@.ids_in_bounds(
                        min_x as int,
                        max_x as int,
                        min_y as int,
                        max_y as int,
                    )
                    &&& ids.len() == found@.len()
                    &&& forall|k: int|
                        0 <= k < ids.len() ==> *#[trigger] found@[k] == self@.items[ids[k]]
                },
    {
        let keys = map_keys(&self.items);
        let mut found: Vec<&(T, XY, WH)> = Vec::new();
        let ghost mut ids: Seq<u64> = Seq::empty();
        let mut i: usize = 0;
        while i < keys.len()
            invariant
                0 <= i <= keys.len(),
                keys@.no_duplicates(),
                keys@.to_set() == self.items@.dom(),
                self@.items == self.items@,
                ids.len() == found@.len(),
                forall|k: int| 0 <= k < ids.len() ==> *#[trigger] found@[k] == self.items@[ids[k]],
                forall|k: int|
                    0 <= k < ids.len() ==> exists|j: int|
                        0 <= j < i && keys@[j] == #[trigger] ids[k],
                forall|k: int|
                    0 <= k < ids.len() ==> self.items@.contains_key(#[trigger] ids[k])
                        && meets_bounds(
                        self.items@[ids[k]].1,
                        self.items@[ids[k]].2,
                        min_x as int,
                        max_x as int,
                        min_y as int,
                        max_y as int,
                    ),
                forall|j: int|
                    0 <= j < i && meets_bounds(
                        self.items@[#[trigger] keys@[j]].1,
                        self.items@[keys@[j]].2,
                        min_x as int,
                        max_x as int,
                        min_y as int,
                        max_y as int,
                    ) ==> ids.contains(keys@[j]),
                ids.no_duplicates(),
            decreases keys.len() - i,
        {
            let id: u64 = keys[i];
            proof {
                assert(keys@.to_set().contains(keys@[i as int]));
            }
            match map_get(&self.items, &id) {
                Some(record) => {
                    let x: i64 = record.1.0 as i64;
                    let y: i64 = record.1.1 as i64;
                    let w: i64 = record.2.0 as i64;
                    let h: i64 = record.2.1 as i64;
                    if x + w >= min_x && x <= max_x && y + h >= min_y && y <= max_y {
                        proof {
                            assert forall|k: int| 0 <= k < ids.len() implies ids[k] != id by {
                                let j = choose|j: int| 0 <= j < i && keys@[j] == ids[k];
                                assert(keys@[j] != keys@[i as int]);
                            }
                            let pushed = ids.push(id);
                            assert forall|k: int| 0 <= k < pushed.len() implies exists|j: int|
                                0 <= j < i + 1 && keys@[j] == #[trigger] pushed[k] by {
                                if k < ids.len() {
                                    let j = choose|j: int| 0 <= j < i && keys@[j] == ids[k];
                                    assert(0 <= j < i + 1 && keys@[j] == pushed[k]);
                                } else {
                                    assert(0 <= i < i + 1 && keys@[i as int] == pushed[k]);
                                }
                            }
                            assert forall|j: int|
                                0 <= j < i + 1 && meets_bounds(
                                    self.items@[#[trigger] keys@[j]].1,
                                    self.items@[keys@[j]].2,
                                    min_x as int,
                                    max_x as int,
                                    min_y as int,
                                    max_y as int,
                                ) implies pushed.contains(keys@[j]) by {
                                if j < i {
                                    let k = choose|k: int|
                                        0 <= k < ids.len() && ids[k] == keys@[j];
                                    assert(pushed[k] == keys@[j]);
                                } else {
                                    assert(pushed[ids.len() as int] == keys@[j]);
                                }
                            }
                            ids = pushed;
                        }
                        found.push(record);
                    }
                },
                None => {},
            }
            i = i + 1;
        }
        proof {
            let wanted = self@.ids_in_bounds(min_x as int, max_x as int, min_y as int, max_y as int);
            assert forall|id: u64| ids.to_set().contains(id) implies wanted.contains(id) by {
                let k = choose|k: int| 0 <= k < ids.len() && ids[k] == id;
                assert(self.items@.contains_key(ids[k]));
            }
            assert forall|id: u64| wanted.contains(id) implies ids.to_set().contains(id) by {
                assert(keys@.to_set().contains(id));
                let j = choose|j: int| 0 <= j < keys@.len() && keys@[j] == id;
                assert(ids.contains(keys@[j]));
            }
            assert(ids.to_set() =~= wanted);
        }
        found
    }

    /// Gets the cells of the box `[min_x, max_x] × [min_y, max_y]` that no
    /// item covers, column by column, each column bottom to top.
    pub fn get_empty_in_bounds(&self, min_x: i32, max_x: i32, min_y: i32, max_y: i32) -> (empty:
        Vec<XY>)
        requires
            self.wf(),
        ensures
            forall|c: XY|
                empty@.contains(c) <==> min_x <= c.0 <= max_x && min_y <= c.1 <= max_y
                    && !self@.cells.contains_key(c),
            forall|i: int, j: int|
                0 <= i < j < empty@.len() ==> cell_before(#[trigger] empty@[i], #[trigger] empty@[j]),
    {
        let mut empty: Vec<XY> = Vec::new();
        let mut x: i64 = min_x as i64;
        while x <= max_x as i64
            invariant
                min_x <= x,
                x <= max_x + 1 || x == min_x,
                self@.cells == self.grid@,
                forall|c: XY|
                    empty@.contains(c) <==> min_x <= c.0 < x && min_y <= c.1 <= max_y
                        && !self.grid@.contains_key(c),
                forall|i: int, j: int|
                    0 <= i < j < empty@.len() ==> cell_before(
                        #[trigger] empty@[i],
                        #[trigger] empty@[j],
                    ),
            decreases max_x + 1 - x,
        {
            let mut y: i64 = min_y as i64;
            while y <= max_y as i64
                invariant
                    min_x <= x <= max_x,
                    min_y <= y,
                    y <= max_y + 1 || y == min_y,
                    self@.cells == self.grid@,
                    forall|c: XY|
                        empty@.contains(c) <==> (min_x <= c.0 < x && min_y <= c.1 <= max_y
                            && !self.grid@.contains_key(c)) || (c.0 == x && min_y <= c.1 < y
                            && !self.grid@.contains_key(c)),
                    forall|i: int, j: int|
                        0 <= i < j < empty@.len() ==> cell_before(
                            #[trigger] empty@[i],
                            #[trigger] empty@[j],
                        ),
                decreases max_y + 1 - y,
            {
                let cell: XY = (x as i32, y as i32);
                if map_get(&self.grid, &cell).is_none() {
                    let ghost before = empty@;
                    empty.push(cell);
                    proof {
                        assert forall|i: int, j: int| 0 <= i < j < empty@.len() implies cell_before(
                            #[trigger] empty@[i],
                            #[trigger] empty@[j],
                        ) by {
                            if j == before.len() {
                                assert(before.contains(before[i]));
                            }
                        }
                        assert forall|c: XY|
                            empty@.contains(c) <==> (min_x <= c.0 < x && min_y <= c.1 <= max_y
                                && !self.grid@.contains_key(c)) || (c.0 == x && min_y <= c.1 < y + 1
                                && !self.grid@.contains_key(c)) by {
                            if empty@.contains(c) {
                                let k = choose|k: int| 0 <= k < empty@.len() && empty@[k] == c;
                                if k < before.len() {
                                    assert(before.contains(before[k]));
                                }
                            }
                            if before.contains(c) {
                                let k = choose|k: int| 0 <= k < before.len() && before[k] == c;
                                assert(empty@[k] == c);
                            }
                            if c == cell {
                                assert(empty@[before.len() as int] == c);
                            }
                        }
                    }
                }
                y = y + 1;
            }
            x = x + 1;
        }
        empty
    }

    /// Gets the item entered by a half step in `direction` from the doubled
    /// position `double_position`, with its minimal XY coordinates, its size,
    /// and the slot of its perimeter whose midpoint is that position.
    pub fn get_item_touching_edge(&self, double_position: (i64, i64), direction: Vec2i) -> (found:
        Option<(&T, XY, WH, u64)>)
        requires
            self.wf(),
        ensures
            match self@.touching(double_position, direction) {
                Some((id, slot)) => found == Some(
                    (&self@.items[id].0, self@.items[id].1, self@.items[id].2, slot as u64),
                ) && self@.items.contains_key(id) && 0 <= slot <= u64::MAX,
                None => found is None,
            },
    {
        let cell = match cell_touched(double_position, direction) {
            Some(cell) => cell,
            None => {
                return None;
            },
        };
        let id: u64 = match map_get(&self.grid, &cell) {
            Some(id) => *id,
            None => {
                return None;
            },
        };
        proof {
            assert(self@.cells.contains_key(cell));
        }
        match map_get(&self.items, &id) {
            Some(record) => {
                match slot_touched(double_position, record.1, record.2) {
                    Some(slot) => Some((&record.0, record.1, record.2, slot)),
                    None => None,
                }
            },
            None => None,
        }
    }

    /// As [`Grid::get_item_touching_edge`], with mutable access to the item.
    /// Whatever the caller leaves in the item is what the grid holds
    /// afterwards; nothing else changes.
    pub fn get_item_touching_edge_mut(
        &mut self,
        double_position: (i64, i64),
        direction: Vec2i,
    ) -> (found: Option<(&mut T, XY, WH, u64)>)
        requires
            old(self).wf(),
        ensures
            final(self).wf(),
            match old(self)@.touching(double_position, direction) {
                Some((id, slot)) => old(self)@.items.contains_key(id) && 0 <= slot <= u64::MAX
                    && match found {
                    Some((t, origin, size, k)) => *t == old(self)@.items[id].0 && origin == old(
                        self,
                    )@.items[id].1 && size == old(self)@.items[id].2 && k == slot && final(self)@
                        == old(self)@.with_payload(id, *final(t)),
                    None => false,
                },
                None => found is None && final(self)@ == old(self)@,
            },
    {
        let (id, slot) = match self.get_item_touching_edge(double_position, direction) {
            Some((_t, origin, size, slot)) => {
                let cell = cell_touched(double_position, direction);
                match cell {
                    Some(cell) => match map_get(&self.grid, &cell) {
                        Some(id) => (*id, slot),
                        None => {
                            return None;
                        },
                    },
                    None => {
                        return None;
                    },
                }
            },
            None => {
                return None;
            },
        };
        proof {
            assert forall|t: T| #[trigger] old(self)@.with_payload(id, t).wf() by {
                lemma_with_payload_wf(old(self)@, id, t);
            }
        }
        match map_get_mut(&mut self.items, &id) {
            Some(record) => {
                let origin = record.1;
                let size = record.2;
                Some((&mut record.0, origin, size, slot))
            },
            None => None,
        }
    }

    /// Makes a grid by inserting the items of `records` one after another.
    pub fn from_iter(records: Vec<(T, XY, WH)>) -> (g: Grid<T>)
        requires
            forall|i: int|
                0 <= i < records@.len() ==> footprint_fits(
                    (#[trigger] records@[i]).1,
                    records@[i].2,
                ),
        ensures
            g.wf(),
            g@ == GridModel::from_seq(records@),
    {
        let mut g: Grid<T> = Grid::new();
        let ghost all = records@;
        let count = records.len();
        proof {
            assert(all.len() == count);
            assert(all.take(0) =~= Seq::empty());
        }
        for record in it: records
            invariant
                it.seq() == all,
                all.len() <= usize::MAX,
                forall|i: int|
                    0 <= i < all.len() ==> footprint_fits((#[trigger] all[i]).1, all[i].2),
                g.wf(),
                g@.next_id == it.index(),
                g@ == GridModel::from_seq(all.take(it.index() as int)),
        {
            proof {
                let i = it.index() as int;
                assert(all.take(i + 1).drop_last() =~= all.take(i));
                assert(all.take(i + 1).last() == all[i]);
            }
            let (t, position, size) = record;
            g.insert(t, position, size);
        }
        proof {
            assert(all.take(all.len() as int) =~= all);
        }
        g
    }

    /// How many items have been inserted so far. An insertion needs this to
    /// be below `u64::MAX`.
    pub fn next_id(&self) -> (n: u64)
        ensures
            n == self@.next_id,
    {
        self.next_idx
    }

    /// Inserts an item at a specific minimal XY position with a specific size.
    /// Removes overlapping items.
    pub fn insert(&mut self, t: T, position: XY, size: WH)
        requires
            old(self).wf(),
            footprint_fits(position, size),
            old(self)@.next_id < u64::MAX,
        ensures
            final(self).wf(),
            final(self)@ == old(self)@.insert(t, position, size),
    {
        let ghost placed = t;
        let x0: i64 = position.0 as i64;
        let y0: i64 = position.1 as i64;
        let x1: i64 = x0 + size.0 as i64;
        let y1: i64 = y0 + size.1 as i64;
        let mut y: i64 = y0;
        proof {
            let none = self@.owners(scanned(position, size, y0 as int, x0 as int));
            assert(none =~= Set::empty());
            assert(self@.without(none).items =~= self@.items);
            assert(self@.without(none).cells =~= self@.cells);
        }
        while y < y1
            invariant
                x0 == position.0,
                y0 == position.1,
                x1 == position.0 + size.0,
                y1 == position.1 + size.1,
                footprint_fits(position, size),
                y0 <= y,
                y <= y1 || y == y0,
                old(self).wf(),
                self.wf(),
                self@ == old(self)@.without(
                    old(self)@.owners(scanned(position, size, y as int, x0 as int)),
                ),
            decreases y1 - y,
        {
            let mut x: i64 = x0;
            while x < x1
                invariant
                    x0 == position.0,
                    y0 == position.1,
                    x1 == position.0 + size.0,
                    y1 == position.1 + size.1,
                    footprint_fits(position, size),
                    y0 <= y < y1,
                    x0 <= x,
                    x <= x1 || x == x0,
                    old(self).wf(),
                    self.wf(),
                    self@ == old(self)@.without(
                        old(self)@.owners(scanned(position, size, y as int, x as int)),
                    ),
                decreases x1 - x,
            {
                let cell: XY = (x as i32, y as i32);
                proof {
                    lemma_evict_step(old(self)@, scanned(position, size, y as int, x as int), cell);
                    assert(scanned(position, size, y as int, x + 1) =~= scanned(
                        position,
                        size,
                        y as int,
                        x as int,
                    ).insert(cell));
                }
                self.remove(cell);
                x = x + 1;
            }
            proof {
                assert(scanned(position, size, y + 1, x0 as int) =~= scanned(
                    position,
                    size,
                    y as int,
                    x as int,
                ));
            }
            y = y + 1;
        }
        proof {
            assert(scanned(position, size, y as int, x0 as int) =~= footprint(position, size));
        }
        let idx = self.next_idx;
        self.next_idx = idx + 1;
        map_insert(&mut self.items, idx, (t, position, size));
        fill_footprint(&mut self.grid, position, size, idx);
        proof {
            let before = old(self)@;
            let after = before.insert(placed, position, size);
            assert(self@.items =~= after.items);
            assert(self@.cells =~= after.cells);
            lemma_insert_wf(before, placed, position, size);
        }
    }

    /// Removes the item at a specific position
    pub fn remove(&mut self, position: XY)
        requires
            old(self).wf(),
        ensures
            final(self).wf(),
            final(self)@ == old(self)@.remove(position),
    {
        let id: u64 = match map_get(&self.grid, &position) {
            Some(id) => *id,
            None => {
                return ;
            },
        };
        proof {
            assert(old(self)@.cells.contains_key(position));
            assert(old(self)@.items.contains_key(id));
        }
        match map_remove(&mut self.items, &id) {
            Some((_t, origin, size)) => {
                clear_footprint(&mut self.grid, origin, size);
                proof {
                    let before = old(self)@;
                    let after = before.without(set![id]);
                    assert forall|c: XY| before.cells.contains_key(c) implies (covers(
                        origin,
                        size,
                        c,
                    ) <==> before.cells[c] == id) by {
                        assert(before.items.contains_key(before.cells[c]));
                    }
                    assert(self@.cells =~= after.cells);
                    assert(self@.items =~= after.items);
                    lemma_without_wf(before, set![id]);
                }
            },
            None => {},
        }
    }
}

/// After an item is placed, every cell of its footprint gives back that item
/// with its origin and size.
pub proof fn lemma_insert_then_get_cell<T>(m: GridModel<T>, t: T, origin: XY, size: WH, cell: XY)
    requires
        m.wf(),
        footprint_fits(origin, size),
        m.next_id < u64::MAX,
        covers(origin, size, cell),
    ensures
        m.insert(t, origin, size).get(cell) == Some((t, origin, size)),
{
}

/// After an item with at least one cell is placed, its origin gives back that
/// item with its origin and size. (The footprint of an item without width or
/// without height has no cell, and not the origin either.)
pub proof fn lemma_insert_then_get<T>(m: GridModel<T>, t: T, origin: XY, size: WH)
    requires
        m.wf(),
        footprint_fits(origin, size),
        m.next_id < u64::MAX,
        size.0 > 0,
        size.1 > 0,
    ensures
        m.insert(t, origin, size).get(origin) == Some((t, origin, size)),
{
    assert(covers(origin, size, origin));
}

/// After the item on a cell is removed, no cell of its former footprint is
/// occupied.
pub proof fn lemma_remove_frees_footprint<T>(m: GridModel<T>, position: XY, cell: XY)
    requires
        m.wf(),
        m.get(position) is Some,
        covers(m.get(position).unwrap().1, m.get(position).unwrap().2, cell),
    ensures
        m.remove(position).get(cell) is None,
{
    let id = m.cells[position];
    assert(m.items.contains_key(id));
    assert(covers(m.items[id].1, m.items[id].2, cell));
}

/// Placing an item and removing it again frees every cell of its footprint.
pub proof fn lemma_insert_then_remove<T>(m: GridModel<T>, t: T, origin: XY, size: WH, cell: XY)
    requires
        m.wf(),
        footprint_fits(origin, size),
        m.next_id < u64::MAX,
        covers(origin, size, cell),
    ensures
        m.insert(t, origin, size).remove(origin).get(cell) is None,
{
    let placed = m.insert(t, origin, size);
    lemma_insert_wf(m, t, origin, size);
    lemma_insert_then_get(m, t, origin, size);
    lemma_remove_frees_footprint(placed, origin, cell);
}

/// An item that a new footprint overlaps is evicted whole: none of its
/// cells stays occupied by it, also outside the new footprint.
pub proof fn lemma_insert_evicts_whole<T>(
    m: GridModel<T>,
    t: T,
    origin: XY,
    size: WH,
    hit: XY,
    cell: XY,
)
    requires
        m.wf(),
        footprint_fits(origin, size),
        m.next_id < u64::MAX,
        covers(origin, size, hit),
        m.get(hit) is Some,
        covers(m.get(hit).unwrap().1, m.get(hit).unwrap().2, cell),
        !covers(origin, size, cell),
    ensures
        m.insert(t, origin, size).get(cell) is None,
{
    let id = m.cells[hit];
    assert(footprint(origin, size).contains(hit));
    assert(m.overlapped(origin, size).contains(id));
    assert(m.items.contains_key(id));
    assert(covers(m.items[id].1, m.items[id].2, cell));
}

/// Items that a new footprint does not overlap stay where they are.
pub proof fn lemma_insert_keeps_others<T>(m: GridModel<T>, t: T, origin: XY, size: WH, cell: XY)
    requires
        m.wf(),
        footprint_fits(origin, size),
        m.next_id < u64::MAX,
        m.get(cell) is Some,
        !m.overlapped(origin, size).contains(m.cells[cell]),
    ensures
        m.insert(t, origin, size).get(cell) == m.get(cell),
{
    let id = m.cells[cell];
    assert(m.items.contains_key(id));
    if covers(origin, size, cell) {
        assert(footprint(origin, size).contains(cell));
    }
}

} // verus!
