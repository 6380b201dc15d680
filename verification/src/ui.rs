//! The editing state of the application: what the editor is doing, what it
//! holds while doing it, and what the events of the screen do to that.

use vstd::prelude::*;
use fnv::FnvHashSet;
use crate::agent::Agent;
use crate::agent::AgentModel;
use crate::gadget::Gadget;
use crate::gadget::GadgetModel;
use crate::grid::meets_bounds;
use crate::grid::Grid;
use crate::grid::WH;
use crate::grid::XY;
use crate::math::Vec2i;
use crate::tables::lemma_take_to_set;
use crate::tables::set_contains;
use crate::tables::set_elements;
use crate::tables::set_insert;
use crate::undo::UndoStack;
use crate::undo::UndoStackModel;

verus! {

// Mode of editing
#[derive(Clone, Copy, Eq, PartialEq, Structural)]
pub enum Mode {
    /// Nothing in particular.
    Idle,
    TilePaint,
    AgentPlace,
    Play,
    Select,
    GadgetPaste,
}

/// How the footprints in a box combine with the selection there is.
#[derive(Clone, Copy, Eq, PartialEq, Structural)]
pub enum SelectFunc {
    /// The footprints in the box become the selection.
    Replace,
    /// The footprints in the box join the selection.
    Add,
    /// The footprints in the box leave the selection.
    Subtract,
    /// The footprints in the box that were selected leave the selection, the
    /// others join it.
    Xor,
}

/// The selection after the footprints `found` in a box have been combined
/// with it.
pub open spec fn combined(selection: Set<(XY, WH)>, found: Set<(XY, WH)>, func: SelectFunc) -> Set<
    (XY, WH),
> {
    match func {
        SelectFunc::Replace => found,
        SelectFunc::Add => selection.union(found),
        SelectFunc::Subtract => selection.difference(found),
        SelectFunc::Xor => selection.difference(found).union(found.difference(selection)),
    }
}

/// What the editor holds: its mode, the gadget picked for painting, the
/// agent, the selected footprints, and the two undo stacks, the main one for
/// edits and the one for moves during play.
pub struct AppModel<A> {
    pub mode: Mode,
    pub gadget_selection: Option<usize>,
    pub gadget_tile: Option<GadgetModel>,
    pub agent: Option<AgentModel>,
    pub selection: Set<(XY, WH)>,
    /// Which stack records actions: 0 the main stack, 1 the play stack.
    pub undo_stack_index: nat,
    pub main_stack: UndoStackModel<A>,
    pub play_stack: UndoStackModel<A>,
}

impl<A> AppModel<A> {
    pub open spec fn wf(self) -> bool {
        &&& self.undo_stack_index <= 1
        &&& self.main_stack.wf()
        &&& self.play_stack.wf()
        &&& self.agent matches Some(agent) ==> agent.wf()
    }

    pub open spec fn empty() -> AppModel<A> {
        AppModel {
            mode: Mode::Idle,
            gadget_selection: None,
            gadget_tile: None,
            agent: None,
            selection: Set::empty(),
            undo_stack_index: 0,
            main_stack: UndoStackModel::empty(),
            play_stack: UndoStackModel::empty(),
        }
    }

    /// The editor after a change of mode. A change to the mode it is in
    /// changes nothing. Otherwise:
    /// the gadget picked for painting is dropped unless the new mode paints;
    /// entering play, the play stack starts empty and records from now on;
    /// leaving play, the main stack records again, and all the moves of the
    /// play become one batch of it;
    /// the agent is dropped unless the new mode places it or plays;
    /// the selection is dropped unless the new mode selects;
    /// leaving paste, what was recorded last is closed as a batch.
    pub open spec fn set_mode(self, mode: Mode) -> AppModel<A> {
        if mode == self.mode {
            self
        } else {
            let keeps_tile = mode == Mode::TilePaint;
            let index: nat = if mode == Mode::Play {
                1
            } else if self.mode == Mode::Play {
                0
            } else {
                self.undo_stack_index
            };
            let main = if self.mode == Mode::Play {
                self.main_stack.append_as_batch(self.play_stack)
            } else {
                self.main_stack
            };
            let play = if mode == Mode::Play || self.mode == Mode::Play {
                UndoStackModel::<A>::empty()
            } else {
                self.play_stack
            };
            let closes = self.mode == Mode::GadgetPaste;
            AppModel {
                mode,
                gadget_selection: if keeps_tile {
                    self.gadget_selection
                } else {
                    None
                },
                gadget_tile: if keeps_tile {
                    self.gadget_tile
                } else {
                    None
                },
                agent: if mode == Mode::AgentPlace || mode == Mode::Play {
                    self.agent
                } else {
                    None
                },
                selection: if mode == Mode::Select {
                    self.selection
                } else {
                    Set::empty()
                },
                undo_stack_index: index,
                main_stack: if closes && index == 0 {
                    main.batch()
                } else {
                    main
                },
                play_stack: if closes && index == 1 {
                    play.batch()
                } else {
                    play
                },
            }
        }
    }

    /// The editor after an action has been recorded.
    pub open spec fn record(self, action: A) -> AppModel<A> {
        if self.undo_stack_index == 0 {
            AppModel { main_stack: self.main_stack.push(action), ..self }
        } else {
            AppModel { play_stack: self.play_stack.push(action), ..self }
        }
    }

    /// The editor after a stroke of painting has ended: what the stroke
    /// recorded is closed as a batch.
    pub open spec fn tile_paint_finish(self) -> AppModel<A> {
        if self.undo_stack_index == 0 {
            AppModel { main_stack: self.main_stack.batch(), ..self }
        } else {
            AppModel { play_stack: self.play_stack.batch(), ..self }
        }
    }

    /// The editor after the agent, if there is one, has been moved by the
    /// pointer.
    pub open spec fn agent_hover(self, double_xy: (i64, i64)) -> AppModel<A> {
        match self.agent {
            Some(agent) => AppModel { agent: Some(agent.set_double_position(double_xy)), ..self },
            None => self,
        }
    }

    /// The editor after the agent, if there is one, has been put down: the
    /// play begins where the agent stands.
    pub open spec fn agent_place(self, double_xy: (i64, i64)) -> AppModel<A> {
        if self.agent is Some {
            self.set_mode(Mode::Play).agent_hover(double_xy)
        } else {
            self
        }
    }
}

/// Adds to `into` the footprints of `from` that are not in `except`.
fn add_difference(
    into: &mut FnvHashSet<(XY, WH)>,
    from: &FnvHashSet<(XY, WH)>,
    except: &FnvHashSet<(XY, WH)>,
)
    ensures
        final(into)@ == old(into)@.union(from@.difference(except@)),
{
    let elements = set_elements(from);
    let mut i: usize = 0;
    proof {
        assert(elements@.take(0).to_set() =~= Set::empty());
        assert(into@ =~= old(into)@.union(elements@.take(0).to_set().difference(except@)));
    }
    while i < elements.len()
        invariant
            0 <= i <= elements@.len(),
            elements@.to_set() == from@,
            into@ == old(into)@.union(elements@.take(i as int).to_set().difference(except@)),
        decreases elements@.len() - i,
    {
        let f = elements[i];
        proof {
            lemma_take_to_set(elements@, i as int);
        }
        if !set_contains(except, &f) {
            set_insert(into, f);
        }
        proof {
            assert(into@ =~= old(into)@.union(
                elements@.take(i + 1).to_set().difference(except@),
            ));
        }
        i = i + 1;
    }
    proof {
        assert(elements@.take(elements@.len() as int) =~= elements@);
    }
}

/// The selection after the footprints `found` have been combined with it.
fn combine(selection: &FnvHashSet<(XY, WH)>, found: FnvHashSet<(XY, WH)>, func: SelectFunc) -> (result:
    FnvHashSet<(XY, WH)>)
    ensures
        result@ == combined(selection@, found@, func),
{
    let nothing: FnvHashSet<(XY, WH)> = FnvHashSet::default();
    let mut result: FnvHashSet<(XY, WH)> = FnvHashSet::default();
    match func {
        SelectFunc::Replace => {
            add_difference(&mut result, &found, &nothing);
        },
        SelectFunc::Add => {
            add_difference(&mut result, selection, &nothing);
            add_difference(&mut result, &found, &nothing);
        },
        SelectFunc::Subtract => {
            add_difference(&mut result, selection, &found);
        },
        SelectFunc::Xor => {
            add_difference(&mut result, selection, &found);
            add_difference(&mut result, &found, selection);
        },
    }
    proof {
        assert(result@ =~= combined(selection@, found@, func));
    }
    result
}

/// The editing state of the application.
pub struct App<A> {
    mode: Mode,
    gadget_selection: Option<usize>,
    gadget_tile: Option<Gadget>,
    agent: Option<Agent>,
    selection: FnvHashSet<(XY, WH)>,
    undo_stack_index: usize,
    main_stack: UndoStack<A>,
    play_stack: UndoStack<A>,
}

impl<A> View for App<A> {
    type V = AppModel<A>;

    closed spec fn view(&self) -> AppModel<A> {
        AppModel {
            mode: self.mode,
            gadget_selection: self.gadget_selection,
            gadget_tile: match self.gadget_tile {
                Some(gadget) => Some(gadget@),
                None => None,
            },
            agent: match self.agent {
                Some(agent) => Some(agent@),
                None => None,
            },
            selection: self.selection@,
            undo_stack_index: self.undo_stack_index as nat,
            main_stack: self.main_stack@,
            play_stack: self.play_stack@,
        }
    }
}

impl<A> App<A> {
    /// The invariant of the editor; see [`AppModel::wf`].
    pub open spec fn wf(&self) -> bool {
        self@.wf()
    }

    /// An editor that does nothing yet and holds nothing.
    pub fn new() -> (app: App<A>)
        ensures
            app.wf(),
            app@ == AppModel::<A>::empty(),
    {
        App {
            mode: Mode::Idle,
            gadget_selection: None,
            gadget_tile: None,
            agent: None,
            selection: FnvHashSet::default(),
            undo_stack_index: 0,
            main_stack: UndoStack::new(),
            play_stack: UndoStack::new(),
        }
    }

    pub fn mode(&self) -> (mode: Mode)
        ensures
            mode == self@.mode,
    {
        self.mode
    }

    /// Which entry of the gadget palette is picked for painting.
    pub fn gadget_selection(&self) -> (selection: Option<usize>)
        ensures
            selection == self@.gadget_selection,
    {
        self.gadget_selection
    }

    /// The gadget picked for painting.
    pub fn gadget_tile(&self) -> (tile: &Option<Gadget>)
        ensures
            match *tile {
                Some(gadget) => self@.gadget_tile == Some(gadget@),
                None => self@.gadget_tile is None,
            },
    {
        &self.gadget_tile
    }

    pub fn agent(&self) -> (agent: &Option<Agent>)
        ensures
            match *agent {
                Some(a) => self@.agent == Some(a@),
                None => self@.agent is None,
            },
    {
        &self.agent
    }

    /// Which stack records actions: 0 the main stack, 1 the play stack.
    pub fn undo_stack_index(&self) -> (index: usize)
        ensures
            index == self@.undo_stack_index,
    {
        self.undo_stack_index
    }

    /// The main undo stack.
    pub fn main_stack(&self) -> (stack: &UndoStack<A>)
        ensures
            stack@ == self@.main_stack,
    {
        &self.main_stack
    }

    /// The undo stack of the play.
    pub fn play_stack(&self) -> (stack: &UndoStack<A>)
        ensures
            stack@ == self@.play_stack,
    {
        &self.play_stack
    }

    /// Whether the footprint of this origin and size is selected.
    pub fn is_selected(&self, xy: XY, wh: WH) -> (selected: bool)
        ensures
            selected == self@.selection.contains((xy, wh)),
    {
        set_contains(&self.selection, &(xy, wh))
    }

    pub fn set_mode(&mut self, mode: Mode)
        requires
            old(self).wf(),
        ensures
            final(self).wf(),
            final(self)@ == old(self)@.set_mode(mode),
    {
        if mode != self.mode {
            // clear some fields
            if mode != Mode::TilePaint {
                self.gadget_selection = None;
                self.gadget_tile = None;
            }
            // Play time! Use the playing undo stack

            if mode == Mode::Play {
                self.undo_stack_index = 1;
                self.play_stack.clear();
            }
            // Play time's over! Move the entire play history to the main stack as a single batch

            if self.mode == Mode::Play {
                self.undo_stack_index = 0;
                self.main_stack.append_as_batch(&mut self.play_stack);
            }
            if mode != Mode::AgentPlace && mode != Mode::Play {
                self.agent = None;
            }
            if mode != Mode::Select {
                self.selection.clear();
            }
            if self.mode == Mode::GadgetPaste {
                // Just in case a cut was performed without a paste
                if self.undo_stack_index == 0 {
                    self.main_stack.batch();
                } else {
                    self.play_stack.batch();
                }
            }
            self.mode = mode;
        }
    }

    /// Records an action on the stack that records now.
    pub fn record(&mut self, action: A)
        requires
            old(self).wf(),
        ensures
            final(self).wf(),
            final(self)@ == old(self)@.record(action),
    {
        if self.undo_stack_index == 0 {
            self.main_stack.push(action);
        } else {
            self.play_stack.push(action);
        }
    }

    /// A gadget of the palette was picked: the editor paints with it.
    pub fn pick_gadget(&mut self, selection: usize, gadget: Gadget)
        requires
            old(self).wf(),
        ensures
            final(self).wf(),
            final(self)@ == (AppModel {
                gadget_selection: Some(selection),
                gadget_tile: Some(gadget@),
                ..old(self)@.set_mode(Mode::TilePaint)
            }),
    {
        self.set_mode(Mode::TilePaint);
        self.gadget_selection = Some(selection);
        self.gadget_tile = Some(gadget);
    }

    /// The agent was asked for: the editor takes up a new agent, which faces
    /// up from the middle of the bottom edge of the cell at the origin, and
    /// waits for it to be put down.
    pub fn begin_agent_place(&mut self)
        requires
            old(self).wf(),
        ensures
            final(self).wf(),
            final(self)@ == (AppModel {
                agent: Some(AgentModel { double_xy: (1, 0), direction: Vec2i { x: 0, y: 1 } }),
                ..old(self)@.set_mode(Mode::AgentPlace)
            }),
    {
        self.set_mode(Mode::AgentPlace);
        self.agent = Some(Agent::new((1, 0), Vec2i { x: 0, y: 1 }));
    }

    /// The agent was put down at the position whose double is `double_xy`:
    /// if there is an agent, the play begins there.
    pub fn agent_place(&mut self, double_xy: (i64, i64))
        requires
            old(self).wf(),
        ensures
            final(self).wf(),
            final(self)@ == old(self)@.agent_place(double_xy),
    {
        if self.agent.is_some() {
            self.set_mode(Mode::Play);
        }
        self.agent_hover(double_xy);
    }

    /// The pointer carries the agent to the position whose double is
    /// `double_xy`, if there is an agent.
    pub fn agent_hover(&mut self, double_xy: (i64, i64))
        requires
            old(self).wf(),
        ensures
            final(self).wf(),
            final(self)@ == old(self)@.agent_hover(double_xy),
    {
        match &mut self.agent {
            Some(agent) => {
                agent.set_double_position(double_xy);
            },
            None => {},
        }
    }

    /// A stroke of painting ended: what it recorded is closed as a batch.
    pub fn tile_paint_finish(&mut self)
        requires
            old(self).wf(),
        ensures
            final(self).wf(),
            final(self)@ == old(self)@.tile_paint_finish(),
    {
        if self.undo_stack_index == 0 {
            self.main_stack.batch();
        } else {
            self.play_stack.batch();
        }
    }

    /// A box was drawn on the grid: the footprints of the items that meet
    /// the box `[min_x, max_x] × [min_y, max_y]` are combined with the
    /// selection.
    pub fn select_in_bounds<T>(
        &mut self,
        grid: &Grid<T>,
        min_x: i64,
        max_x: i64,
        min_y: i64,
        max_y: i64,
        func: SelectFunc,
    )
        requires
            grid.wf(),
        ensures
            final(self)@ == (AppModel {
                selection: combined(
                    old(self)@.selection,
                    grid@.footprints_in_bounds(
                        min_x as int,
                        max_x as int,
                        min_y as int,
                        max_y as int,
                    ),
                    func,
                ),
                ..old(self)@
            }),
    {
        let records = grid.get_in_bounds(min_x, max_x, min_y, max_y);
        let ghost ids = choose|ids: Seq<u64>|
            {
                &&& ids.no_duplicates()
                &&& ids.to_set() == grid@.ids_in_bounds(
                    min_x as int,
                    max_x as int,
                    min_y as int,
                    max_y as int,
                )
                &&& ids.len() == records@.len()
                &&& forall|k: int|
                    0 <= k < ids.len() ==> *#[trigger] records@[k] == grid@.items[ids[k]]
            };
        let mut found: FnvHashSet<(XY, WH)> = FnvHashSet::default();
        let mut i: usize = 0;
        while i < records.len()
            invariant
                0 <= i <= records@.len(),
                forall|f: (XY, WH)|
                    found@.contains(f) <==> exists|k: int|
                        0 <= k < i && (#[trigger] records@[k]).1 == f.0 && records@[k].2 == f.1,
            decreases records@.len() - i,
        {
            let record = records[i];
            let ghost before = found@;
            set_insert(&mut found, (record.1, record.2));
            proof {
                assert forall|f: (XY, WH)|
                    found@.contains(f) <==> exists|k: int|
                        0 <= k < i + 1 && (#[trigger] records@[k]).1 == f.0 && records@[k].2
                            == f.1 by {
                    if before.contains(f) {
                        let k = choose|k: int|
                            0 <= k < i && (#[trigger] records@[k]).1 == f.0 && records@[k].2
                                == f.1;
                        assert(0 <= k < i + 1 && records@[k].1 == f.0 && records@[k].2 == f.1);
                    }
                    if f == (record.1, record.2) {
                        assert(records@[i as int].1 == f.0 && records@[i as int].2 == f.1);
                    }
                    if exists|k: int|
                        0 <= k < i + 1 && (#[trigger] records@[k]).1 == f.0 && records@[k].2
                            == f.1 {
                        let k = choose|k: int|
                            0 <= k < i + 1 && (#[trigger] records@[k]).1 == f.0 && records@[k].2
                                == f.1;
                        if k < i {
                            assert(before.contains(f));
                        }
                    }
                }
            }
            i = i + 1;
        }
        proof {
            let wanted = grid@.footprints_in_bounds(
                min_x as int,
                max_x as int,
                min_y as int,
                max_y as int,
            );
            assert forall|f: (XY, WH)| found@.contains(f) <==> wanted.contains(f) by {
                if found@.contains(f) {
                    let k = choose|k: int|
                        0 <= k < records@.len() && (#[trigger] records@[k]).1 == f.0
                            && records@[k].2 == f.1;
                    assert(ids.to_set().contains(ids[k]));
                    assert(grid@.items.contains_key(ids[k]));
                }
                if wanted.contains(f) {
                    let id = choose|id: u64|
                        #[trigger] grid@.items.contains_key(id) && grid@.items[id].1 == f.0
                            && grid@.items[id].2 == f.1 && meets_bounds(
                            f.0,
                            f.1,
                            min_x as int,
                            max_x as int,
                            min_y as int,
                            max_y as int,
                        );
                    assert(ids.to_set().contains(id));
                    let k = choose|k: int| 0 <= k < ids.len() && ids[k] == id;
                    assert(records@[k].1 == f.0 && records@[k].2 == f.1);
                }
            }
            assert(found@ =~= wanted);
        }
        self.selection = combine(&self.selection, found, func);
    }
}

} // verus!
