use gadget_up::gadget::Gadget;
use gadget_up::gadget::GadgetDef;
use gadget_up::gadget::State;
use gadget_up::grid::Grid;
use gadget_up::math::Vec2i;
use gadget_up::ui::App;
use gadget_up::ui::Mode;
use gadget_up::ui::SelectFunc;
use gadget_up::undo::UndoStack;
use std::rc::Rc;

const UP: Vec2i = Vec2i { x: 0, y: 1 };
const LEFT: Vec2i = Vec2i { x: -1, y: 0 };

fn nope() -> Gadget {
    let def = Rc::new(GadgetDef::new(1, 0).unwrap());
    Gadget::new(&def, (1, 1), vec![None, None, None, None], State(0))
}

/// Three items in a row: "a" on the cells (0,0) and (1,0), "b" on (3,0), "c" on (5,0).
fn row() -> Grid<&'static str> {
    Grid::from_iter(vec![("a", (0, 0), (2, 1)), ("b", (3, 0), (1, 1)), ("c", (5, 0), (1, 1))])
}

fn selected(app: &App<u32>) -> Vec<&'static str> {
    let mut names = Vec::new();
    if app.is_selected((0, 0), (2, 1)) {
        names.push("a");
    }
    if app.is_selected((3, 0), (1, 1)) {
        names.push("b");
    }
    if app.is_selected((5, 0), (1, 1)) {
        names.push("c");
    }
    names
}

#[test]
fn test_new_app() {
    let app: App<u32> = App::new();
    assert!(app.mode() == Mode::Idle);
    assert_eq!(None, app.gadget_selection());
    assert!(app.gadget_tile().is_none());
    assert!(app.agent().is_none());
    assert!(!app.is_selected((0, 0), (1, 1)));
    assert_eq!(0, app.undo_stack_index());
    assert_eq!(0, app.main_stack().len());
    assert_eq!(0, app.play_stack().len());
}

#[test]
fn test_set_mode_to_the_same_mode_changes_nothing() {
    let mut app: App<u32> = App::new();
    app.set_mode(Mode::Select);
    app.select_in_bounds(&row(), 0, 0, 0, 0, SelectFunc::Replace);
    app.record(7);
    app.set_mode(Mode::Select);
    assert!(app.mode() == Mode::Select);
    assert_eq!(vec!["a"], selected(&app));
    assert_eq!(1, app.main_stack().len());
    assert_eq!(0, app.main_stack().num_batches());

    app.pick_gadget(3, nope());
    app.set_mode(Mode::TilePaint);
    assert_eq!(Some(3), app.gadget_selection());
    assert!(app.gadget_tile().is_some());

    app.begin_agent_place();
    app.set_mode(Mode::AgentPlace);
    assert!(app.agent().is_some());
}

#[test]
fn test_only_tile_paint_keeps_the_gadget() {
    let mut app: App<u32> = App::new();
    app.pick_gadget(3, nope());
    assert!(app.mode() == Mode::TilePaint);
    assert_eq!(Some(3), app.gadget_selection());
    assert!(app.gadget_tile().is_some());
    app.set_mode(Mode::Select);
    assert_eq!(None, app.gadget_selection());
    assert!(app.gadget_tile().is_none());
}

#[test]
fn test_picking_another_gadget_keeps_painting() {
    let mut app: App<u32> = App::new();
    app.pick_gadget(3, nope());
    app.record(1);
    app.pick_gadget(5, nope());
    assert!(app.mode() == Mode::TilePaint);
    assert_eq!(Some(5), app.gadget_selection());
    assert_eq!(1, app.main_stack().len());
    assert_eq!(0, app.main_stack().num_batches());
}

#[test]
fn test_only_agent_place_and_play_keep_the_agent() {
    let mut app: App<u32> = App::new();
    app.begin_agent_place();
    assert!(app.mode() == Mode::AgentPlace);
    assert!(app.agent().is_some());
    app.set_mode(Mode::Play);
    assert!(app.agent().is_some());
    app.set_mode(Mode::AgentPlace);
    assert!(app.agent().is_some());
    app.set_mode(Mode::TilePaint);
    assert!(app.agent().is_none());
}

#[test]
fn test_new_agent_waits_below_the_origin_cell() {
    let mut app: App<u32> = App::new();
    app.begin_agent_place();
    let agent = app.agent().as_ref().unwrap();
    assert_eq!((1, 0), agent.double_position());
    assert_eq!(UP, agent.direction());
}

#[test]
fn test_agent_hover_moves_the_agent_and_nothing_else() {
    let mut app: App<u32> = App::new();
    app.agent_hover((4, 3));
    assert!(app.agent().is_none());
    app.begin_agent_place();
    app.agent_hover((4, 3));
    assert!(app.mode() == Mode::AgentPlace);
    let agent = app.agent().as_ref().unwrap();
    assert_eq!((4, 3), agent.double_position());
    // from an edge between rows to an edge between columns
    assert_eq!(LEFT, agent.direction());
}

#[test]
fn test_agent_place_begins_the_play() {
    let mut app: App<u32> = App::new();
    app.record(1);
    app.begin_agent_place();
    app.agent_place((7, -2));
    assert!(app.mode() == Mode::Play);
    assert_eq!(1, app.undo_stack_index());
    let agent = app.agent().as_ref().unwrap();
    assert_eq!((7, -2), agent.double_position());
    assert_eq!(UP, agent.direction());
    // during the play the agent can be put elsewhere
    app.record(2);
    app.agent_place((9, -2));
    assert!(app.mode() == Mode::Play);
    assert_eq!((9, -2), app.agent().as_ref().unwrap().double_position());
    assert_eq!(1, app.play_stack().len());
}

#[test]
fn test_agent_place_without_an_agent_changes_nothing() {
    let mut app: App<u32> = App::new();
    app.set_mode(Mode::Select);
    app.agent_place((7, -2));
    assert!(app.mode() == Mode::Select);
    assert!(app.agent().is_none());
    assert_eq!(0, app.undo_stack_index());
}

#[test]
fn test_only_select_keeps_the_selection() {
    let mut app: App<u32> = App::new();
    app.select_in_bounds(&row(), 3, 3, 0, 0, SelectFunc::Add);
    app.set_mode(Mode::Select);
    assert_eq!(vec!["b"], selected(&app));
    app.set_mode(Mode::GadgetPaste);
    assert!(selected(&app).is_empty());
}

#[test]
fn test_select_replace() {
    let mut app: App<u32> = App::new();
    app.select_in_bounds(&row(), 0, 3, 0, 0, SelectFunc::Replace);
    assert_eq!(vec!["a", "b"], selected(&app));
    app.select_in_bounds(&row(), 3, 5, 0, 0, SelectFunc::Replace);
    assert_eq!(vec!["b", "c"], selected(&app));
    app.select_in_bounds(&row(), 0, 5, 3, 3, SelectFunc::Replace);
    assert!(selected(&app).is_empty());
}

#[test]
fn test_select_add() {
    let mut app: App<u32> = App::new();
    app.select_in_bounds(&row(), 0, 3, 0, 0, SelectFunc::Add);
    app.select_in_bounds(&row(), 3, 5, 0, 0, SelectFunc::Add);
    assert_eq!(vec!["a", "b", "c"], selected(&app));
    app.select_in_bounds(&row(), 0, 5, 3, 3, SelectFunc::Add);
    assert_eq!(vec!["a", "b", "c"], selected(&app));
}

#[test]
fn test_select_subtract() {
    let mut app: App<u32> = App::new();
    app.select_in_bounds(&row(), 0, 3, 0, 0, SelectFunc::Replace);
    app.select_in_bounds(&row(), 3, 5, 0, 0, SelectFunc::Subtract);
    assert_eq!(vec!["a"], selected(&app));
    app.select_in_bounds(&row(), 5, 5, 0, 0, SelectFunc::Subtract);
    assert_eq!(vec!["a"], selected(&app));
}

#[test]
fn test_select_xor() {
    let mut app: App<u32> = App::new();
    app.select_in_bounds(&row(), 0, 3, 0, 0, SelectFunc::Replace);
    app.select_in_bounds(&row(), 3, 5, 0, 0, SelectFunc::Xor);
    assert_eq!(vec!["a", "c"], selected(&app));
    app.select_in_bounds(&row(), 0, 5, 0, 0, SelectFunc::Xor);
    assert_eq!(vec!["b"], selected(&app));
}

#[test]
fn test_select_counts_a_footprint_once() {
    // two items without cells at the same place have the same footprint
    let grid = Grid::from_iter(vec![("x", (0, 0), (0, 0)), ("y", (0, 0), (0, 0))]);
    let mut app: App<u32> = App::new();
    app.select_in_bounds(&grid, 0, 0, 0, 0, SelectFunc::Xor);
    assert!(app.is_selected((0, 0), (0, 0)));
    app.select_in_bounds(&grid, 0, 0, 0, 0, SelectFunc::Xor);
    assert!(!app.is_selected((0, 0), (0, 0)));
}

#[test]
fn test_play_records_on_its_own_stack() {
    let mut app: App<u32> = App::new();
    app.record(1);
    app.set_mode(Mode::TilePaint);
    app.set_mode(Mode::Play);
    assert_eq!(1, app.undo_stack_index());
    assert_eq!(0, app.play_stack().len());
    app.record(2);
    app.record(3);
    assert_eq!(1, app.main_stack().len());
    assert_eq!(2, app.play_stack().len());
}

#[test]
fn test_leaving_play_moves_its_history_to_the_main_stack_as_one_batch() {
    let mut app: App<u32> = App::new();
    app.record(1);
    app.set_mode(Mode::Play);
    app.record(2);
    app.record(3);
    app.set_mode(Mode::Idle);
    assert_eq!(0, app.undo_stack_index());
    assert_eq!(0, app.play_stack().len());
    assert_eq!(0, app.play_stack().num_batches());
    // the action recorded before the play is a batch, the play another
    assert_eq!(3, app.main_stack().len());
    assert_eq!(2, app.main_stack().num_batches());
    app.record(4);
    assert_eq!(4, app.main_stack().len());
    assert_eq!(2, app.main_stack().num_batches());
}

#[test]
fn test_a_play_without_moves_leaves_no_batch() {
    let mut app: App<u32> = App::new();
    app.set_mode(Mode::Play);
    app.set_mode(Mode::Select);
    assert_eq!(0, app.main_stack().len());
    assert_eq!(0, app.main_stack().num_batches());
}

#[test]
fn test_leaving_paste_closes_a_batch() {
    let mut app: App<u32> = App::new();
    app.set_mode(Mode::GadgetPaste);
    app.record(1);
    app.record(2);
    assert_eq!(0, app.main_stack().num_batches());
    app.set_mode(Mode::Select);
    assert_eq!(2, app.main_stack().len());
    assert_eq!(1, app.main_stack().num_batches());
}

#[test]
fn test_leaving_paste_for_play_closes_nothing_on_the_main_stack() {
    let mut app: App<u32> = App::new();
    app.set_mode(Mode::GadgetPaste);
    app.record(1);
    app.set_mode(Mode::Play);
    assert_eq!(1, app.undo_stack_index());
    assert_eq!(1, app.main_stack().len());
    assert_eq!(0, app.main_stack().num_batches());
    assert_eq!(0, app.play_stack().num_batches());
}

#[test]
fn test_tile_paint_finish_closes_the_stroke() {
    let mut app: App<u32> = App::new();
    app.pick_gadget(0, nope());
    app.tile_paint_finish();
    assert_eq!(0, app.main_stack().num_batches());
    app.record(1);
    app.record(2);
    app.tile_paint_finish();
    app.record(3);
    app.tile_paint_finish();
    app.tile_paint_finish();
    assert_eq!(3, app.main_stack().len());
    assert_eq!(2, app.main_stack().num_batches());
}

#[test]
fn test_undo_stack() {
    let mut stack: UndoStack<&str> = UndoStack::new();
    assert_eq!(0, stack.len());
    assert_eq!(0, stack.num_batches());
    stack.batch();
    assert_eq!(0, stack.num_batches());
    stack.push("a");
    stack.push("b");
    stack.batch();
    stack.batch();
    assert_eq!(2, stack.len());
    assert_eq!(1, stack.num_batches());
    stack.push("c");

    let mut other: UndoStack<&str> = UndoStack::new();
    other.push("x");
    other.batch();
    other.push("y");
    stack.append_as_batch(&mut other);
    assert_eq!(0, other.len());
    assert_eq!(0, other.num_batches());
    // [a b] [c] [x y]
    assert_eq!(5, stack.len());
    assert_eq!(3, stack.num_batches());

    stack.append_as_batch(&mut other);
    assert_eq!(5, stack.len());
    assert_eq!(3, stack.num_batches());

    stack.clear();
    assert_eq!(0, stack.len());
    assert_eq!(0, stack.num_batches());
}
