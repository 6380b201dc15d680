use gadget_up::grid::Grid;
use gadget_up::grid::WH;
use gadget_up::grid::XY;
use gadget_up::math::Vec2i;

fn sorted<'a>(found: Vec<&'a (&'static str, XY, WH)>) -> Vec<(&'static str, XY, WH)> {
    let mut records: Vec<(&'static str, XY, WH)> = found.into_iter().copied().collect();
    records.sort();
    records
}

#[test]
fn test_from_iter() {
    let grid = Grid::from_iter(vec![("a", (0, 0), (1, 1)), ("b", (1, 0), (2, 1))]);

    assert_eq!(Some(("a", (0, 0), (1, 1))), grid.get((0, 0)).cloned());
    assert_eq!(Some(("b", (1, 0), (2, 1))), grid.get((1, 0)).cloned());
    assert_eq!(Some(("b", (1, 0), (2, 1))), grid.get((2, 0)).cloned());
}

#[test]
fn test_insert_overlapping() {
    let mut grid = Grid::new();

    grid.insert("a", (0, 0), (2, 2));
    grid.insert("b", (1, 1), (2, 2));

    assert_eq!(None, grid.get((0, 0)));
}

#[test]
fn test_new_grid_is_empty() {
    let grid: Grid<&str> = Grid::new();
    assert_eq!(None, grid.get((0, 0)));
    assert_eq!(0, grid.next_id());
    assert!(grid.get_in_bounds(-10, 10, -10, 10).is_empty());
}

#[test]
fn test_insert_then_get_every_cell() {
    let mut grid = Grid::new();
    grid.insert("t", (-3, 4), (2, 3));
    for x in -3..-1 {
        for y in 4..7 {
            assert_eq!(Some(&("t", (-3, 4), (2, 3))), grid.get((x, y)));
        }
    }
    assert_eq!(None, grid.get((-4, 4)));
    assert_eq!(None, grid.get((-1, 4)));
    assert_eq!(None, grid.get((-3, 3)));
    assert_eq!(None, grid.get((-3, 7)));
}

#[test]
fn test_remove_frees_the_whole_footprint() {
    let mut grid = Grid::new();
    grid.insert("t", (5, 5), (3, 2));
    grid.insert("u", (0, 0), (1, 1));
    grid.remove((5, 5));
    for x in 5..8 {
        for y in 5..7 {
            assert_eq!(None, grid.get((x, y)));
        }
    }
    assert_eq!(Some(&("u", (0, 0), (1, 1))), grid.get((0, 0)));
}

#[test]
fn test_remove_by_any_cell_of_the_footprint() {
    let mut grid = Grid::new();
    grid.insert("t", (0, 0), (2, 2));
    grid.remove((1, 1));
    assert_eq!(None, grid.get((0, 0)));
    assert_eq!(None, grid.get((1, 0)));
    assert_eq!(None, grid.get((0, 1)));
    assert_eq!(None, grid.get((1, 1)));
}

#[test]
fn test_remove_on_an_empty_cell_changes_nothing() {
    let mut grid = Grid::new();
    grid.insert("t", (0, 0), (1, 1));
    grid.remove((1, 0));
    assert_eq!(Some(&("t", (0, 0), (1, 1))), grid.get((0, 0)));
    assert_eq!(1, grid.next_id());
}

#[test]
fn test_eviction_takes_the_whole_item_and_leaves_the_others() {
    let mut grid = Grid::new();
    grid.insert("a", (0, 0), (2, 2));
    grid.insert("c", (5, 5), (1, 1));
    grid.insert("b", (1, 1), (2, 2));

    assert_eq!(None, grid.get((0, 0)));
    assert_eq!(None, grid.get((1, 0)));
    assert_eq!(None, grid.get((0, 1)));
    assert_eq!(Some(&("b", (1, 1), (2, 2))), grid.get((1, 1)));
    assert_eq!(Some(&("b", (1, 1), (2, 2))), grid.get((2, 2)));
    assert_eq!(Some(&("c", (5, 5), (1, 1))), grid.get((5, 5)));
    assert_eq!(3, grid.next_id());
}

#[test]
fn test_insert_evicts_every_item_it_overlaps() {
    let mut grid = Grid::new();
    grid.insert("a", (0, 0), (1, 3));
    grid.insert("b", (2, 0), (1, 3));
    grid.insert("c", (4, 0), (1, 3));
    grid.insert("d", (0, 1), (3, 1));
    assert_eq!(None, grid.get((0, 0)));
    assert_eq!(None, grid.get((2, 2)));
    assert_eq!(Some(&("d", (0, 1), (3, 1))), grid.get((1, 1)));
    assert_eq!(Some(&("c", (4, 0), (1, 3))), grid.get((4, 2)));
    assert_eq!(2, grid.get_in_bounds(-100, 100, -100, 100).len());
}

#[test]
fn test_item_without_cells_is_kept_but_covers_nothing() {
    let mut grid = Grid::new();
    grid.insert("flat", (0, 0), (0, 0));
    assert_eq!(None, grid.get((0, 0)));
    assert_eq!(vec![("flat", (0, 0), (0, 0))], sorted(grid.get_in_bounds(0, 0, 0, 0)));
}

#[test]
fn test_from_iter_later_items_evict_earlier_ones() {
    let grid = Grid::from_iter(vec![("a", (0, 0), (2, 1)), ("b", (1, 0), (1, 1))]);
    assert_eq!(None, grid.get((0, 0)));
    assert_eq!(Some(&("b", (1, 0), (1, 1))), grid.get((1, 0)));
    assert_eq!(2, grid.next_id());
}

#[test]
fn test_get_in_bounds_is_inclusive_on_both_ends() {
    let mut grid = Grid::new();
    grid.insert("a", (0, 0), (2, 2));
    grid.insert("b", (5, 0), (1, 1));
    grid.insert("c", (0, 5), (1, 1));

    // the right edge of "a" is at x = 2, the left edge of "b" at x = 5
    assert_eq!(vec![("a", (0, 0), (2, 2))], sorted(grid.get_in_bounds(2, 4, 0, 0)));
    assert_eq!(
        vec![("a", (0, 0), (2, 2)), ("b", (5, 0), (1, 1))],
        sorted(grid.get_in_bounds(2, 5, 0, 0))
    );
    assert!(grid.get_in_bounds(3, 4, 0, 0).is_empty());
    assert_eq!(vec![("c", (0, 5), (1, 1))], sorted(grid.get_in_bounds(-1, 0, 3, 5)));
    assert_eq!(vec![("c", (0, 5), (1, 1))], sorted(grid.get_in_bounds(1, 1, 6, 9)));
    assert!(grid.get_in_bounds(2, 3, 6, 9).is_empty());
    assert_eq!(3, grid.get_in_bounds(-10, 10, -10, 10).len());
}

#[test]
fn test_get_empty_in_bounds_lists_free_cells_column_by_column() {
    let mut grid = Grid::new();
    grid.insert("a", (0, 0), (1, 2));
    grid.insert("b", (2, 1), (1, 1));
    assert_eq!(
        vec![(-1, 0), (-1, 1), (1, 0), (1, 1), (2, 0)],
        grid.get_empty_in_bounds(-1, 2, 0, 1)
    );
    assert_eq!(Vec::<XY>::new(), grid.get_empty_in_bounds(0, 0, 0, 1));
    assert_eq!(Vec::<XY>::new(), grid.get_empty_in_bounds(3, 2, 0, 1));
    assert_eq!(
        vec![(i32::MAX, i32::MAX - 1), (i32::MAX, i32::MAX)],
        grid.get_empty_in_bounds(i32::MAX, i32::MAX, i32::MAX - 1, i32::MAX)
    );
}

#[test]
fn test_footprint_up_to_the_last_cell() {
    let mut grid = Grid::new();
    grid.insert("edge", (i32::MAX - 1, i32::MAX), (2, 1));
    assert_eq!(Some(&("edge", (i32::MAX - 1, i32::MAX), (2, 1))), grid.get((i32::MAX, i32::MAX)));
    grid.insert("low", (i32::MIN, i32::MIN), (1, 1));
    assert_eq!(Some(&("low", (i32::MIN, i32::MIN), (1, 1))), grid.get((i32::MIN, i32::MIN)));
    grid.remove((i32::MAX - 1, i32::MAX));
    assert_eq!(None, grid.get((i32::MAX, i32::MAX)));
}

#[test]
fn test_touching_edge_from_below_and_above() {
    let mut grid = Grid::new();
    grid.insert("g", (0, 0), (2, 1));
    let up = Vec2i { x: 0, y: 1 };
    let down = Vec2i { x: 0, y: -1 };
    // bottom edge, left and right segment
    assert_eq!(Some((&"g", (0, 0), (2, 1), 0)), grid.get_item_touching_edge((1, 0), up));
    assert_eq!(Some((&"g", (0, 0), (2, 1), 1)), grid.get_item_touching_edge((3, 0), up));
    // top edge, numbered right to left
    assert_eq!(Some((&"g", (0, 0), (2, 1), 3)), grid.get_item_touching_edge((3, 2), down));
    assert_eq!(Some((&"g", (0, 0), (2, 1), 4)), grid.get_item_touching_edge((1, 2), down));
    // walking away from the item
    assert_eq!(None, grid.get_item_touching_edge((1, 0), down));
    assert_eq!(None, grid.get_item_touching_edge((1, 2), up));
}

#[test]
fn test_touching_edge_from_the_sides() {
    let mut grid = Grid::new();
    grid.insert("g", (-2, 3), (1, 2));
    let right = Vec2i { x: 1, y: 0 };
    let left = Vec2i { x: -1, y: 0 };
    // left edge, numbered top to bottom: slots 4 and 5 of 6
    assert_eq!(Some((&"g", (-2, 3), (1, 2), 5)), grid.get_item_touching_edge((-4, 7), right));
    assert_eq!(Some((&"g", (-2, 3), (1, 2), 4)), grid.get_item_touching_edge((-4, 9), right));
    // right edge, numbered bottom to top: slots 1 and 2
    assert_eq!(Some((&"g", (-2, 3), (1, 2), 1)), grid.get_item_touching_edge((-2, 7), left));
    assert_eq!(Some((&"g", (-2, 3), (1, 2), 2)), grid.get_item_touching_edge((-2, 9), left));
    assert_eq!(None, grid.get_item_touching_edge((-2, 7), right));
}

#[test]
fn test_touching_edge_inside_an_item_is_no_slot() {
    let mut grid = Grid::new();
    grid.insert("g", (0, 0), (2, 2));
    let up = Vec2i { x: 0, y: 1 };
    // the edge between the two rows of the item
    assert_eq!(None, grid.get_item_touching_edge((1, 2), up));
    // a corner of a cell is no midpoint
    assert_eq!(None, grid.get_item_touching_edge((0, 0), up));
}

#[test]
fn test_touching_edge_far_away() {
    let mut grid = Grid::new();
    grid.insert("g", (0, 0), (1, 1));
    let up = Vec2i { x: 0, y: 1 };
    assert_eq!(None, grid.get_item_touching_edge((i64::MAX, i64::MAX), up));
    assert_eq!(None, grid.get_item_touching_edge((i64::MIN, i64::MIN), Vec2i { x: 0, y: -1 }));
}

#[test]
fn test_touching_edge_mut_changes_the_item_in_place() {
    let mut grid = Grid::new();
    grid.insert(10, (0, 0), (1, 1));
    grid.insert(20, (1, 0), (1, 1));
    let up = Vec2i { x: 0, y: 1 };
    match grid.get_item_touching_edge_mut((3, 0), up) {
        Some((t, origin, size, slot)) => {
            assert_eq!((1, 0), origin);
            assert_eq!((1, 1), size);
            assert_eq!(0, slot);
            *t += 1;
        }
        None => panic!("there is an item above (1.5, 0)"),
    }
    assert_eq!(Some(&(21, (1, 0), (1, 1))), grid.get((1, 0)));
    assert_eq!(Some(&(10, (0, 0), (1, 1))), grid.get((0, 0)));
    assert!(grid.get_item_touching_edge_mut((3, 0), Vec2i { x: 0, y: -1 }).is_none());
}
