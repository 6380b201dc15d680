//! The agent that walks around in a maze of gadgets.

use vstd::prelude::*;
use crate::gadget::sp_before;
use crate::gadget::sp_sorted;
use crate::gadget::Gadget;
use crate::gadget::GadgetModel;
use crate::gadget::Port;
use crate::gadget::State;
use crate::gadget::SP;
use crate::grid::Grid;
use crate::grid::GridModel;
use crate::grid::XY;
use crate::math::Vec2i;
use crate::perimeter::slot_double_midpoint;
use crate::perimeter::slot_double_position;

verus! {

/// Whether `m` is among `targets` and comes before all the others.
pub open spec fn is_least(targets: Set<SP>, m: SP) -> bool {
    targets.contains(m) && forall|d: SP| targets.contains(d) ==> d == m || sp_before(m, d)
}

/// The destination that comes first among `targets`, if there is any.
pub open spec fn least(targets: Set<SP>) -> Option<SP> {
    if exists|m: SP| is_least(targets, m) {
        Some(choose|m: SP| is_least(targets, m))
    } else {
        None
    }
}

/// The first of an ascending list is the least of what the list holds; an
/// empty list holds nothing.
pub proof fn lemma_first_is_least(list: Seq<SP>, targets: Set<SP>)
    requires
        sp_sorted(list),
        list.to_set() == targets,
    ensures
        list.len() > 0 ==> least(targets) == Some(list[0]),
        list.len() == 0 ==> least(targets) is None,
{
    if list.len() > 0 {
        assert(list.to_set().contains(list[0]));
        assert forall|d: SP| targets.contains(d) implies d == list[0] || sp_before(list[0], d) by {
            assert(list.contains(d));
            let k = choose|k: int| 0 <= k < list.len() && list[k] == d;
            if k > 0 {
                assert(sp_before(list[0], list[k]));
            }
        }
        assert(is_least(targets, list[0]));
        let m = choose|m: SP| is_least(targets, m);
        assert(is_least(targets, m));
    } else {
        assert forall|m: SP| !is_least(targets, m) by {
            if targets.contains(m) {
                assert(list.contains(m));
            }
        }
    }
}

/// The destination an agent takes, from the first destination of each
/// bucket: going forward, the one in front, else the one to the left or to
/// the right where only one of the two is there, else the one behind; turning
/// left or right, the one on that side and no other.
pub open spec fn pick_target(
    back: Option<SP>,
    right: Option<SP>,
    front: Option<SP>,
    left: Option<SP>,
    facing: Vec2i,
    input: Vec2i,
) -> Option<SP> {
    if input.spec_dot(facing) == 1 {
        if front is Some {
            front
        } else if (left is Some) != (right is Some) {
            if left is Some {
                left
            } else {
                right
            }
        } else {
            back
        }
    } else if facing.spec_right_ccw() == input {
        left
    } else {
        right
    }
}

/// The facing of an agent that leaves a gadget at a doubled position on its
/// perimeter: outwards across the edge that the position lies on.
pub open spec fn exit_facing(local: (int, int)) -> Vec2i {
    if local.0 % 2 != 0 {
        if local.1 == 0 {
            Vec2i { x: 0, y: -1i32 }
        } else {
            Vec2i { x: 0, y: 1 }
        }
    } else {
        if local.0 == 0 {
            Vec2i { x: -1i32, y: 0 }
        } else {
            Vec2i { x: 1, y: 0 }
        }
    }
}

/// What an agent is: twice its position, and the direction it faces.
pub struct AgentModel {
    pub double_xy: (i64, i64),
    pub direction: Vec2i,
}

impl AgentModel {
    /// The agent faces along an axis.
    pub open spec fn wf(self) -> bool {
        self.direction.is_cardinal()
    }

    /// The agent put at another position. Where it comes from an edge
    /// between two rows (its doubled x is odd) to an edge between two
    /// columns, it turns a quarter turn counter-clockwise; the other way
    /// round, clockwise: it keeps facing across its edge.
    pub open spec fn set_double_position(self, double_xy: (i64, i64)) -> AgentModel {
        AgentModel {
            double_xy,
            direction: if self.double_xy.0 % 2 != 0 && double_xy.0 % 2 == 0 {
                self.direction.spec_right_ccw()
            } else if self.double_xy.0 % 2 == 0 && double_xy.0 % 2 != 0 {
                self.direction.spec_right_cw()
            } else {
                self.direction
            },
        }
    }
}

/// What one step of an agent comes to.
pub enum Outcome {
    /// The agent turned around on the spot.
    Turned,
    /// Nothing changed.
    Stayed,
    /// The agent crossed the gadget with this id, which is now in `state`,
    /// and stands at `double_xy` facing `direction`.
    Moved { id: u64, state: State, double_xy: (int, int), direction: Vec2i },
}

/// The destination that an agent takes in a gadget which it enters at `port`.
pub open spec fn chosen_target(g: GadgetModel, port: Port, facing: Vec2i, input: Vec2i) -> Option<
    SP,
> {
    pick_target(
        least(g.targets_brfl(port, facing, 0)),
        least(g.targets_brfl(port, facing, 1)),
        least(g.targets_brfl(port, facing, 2)),
        least(g.targets_brfl(port, facing, 3)),
        facing,
        input,
    )
}

/// What a step of `agent` on `grid` with input direction `input` comes to.
pub open spec fn advance_outcome(agent: AgentModel, grid: GridModel<Gadget>, input: Vec2i) -> Outcome {
    if input.spec_dot(agent.direction) == -1 {
        Outcome::Turned
    } else {
        match grid.touching(agent.double_xy, agent.direction) {
            None => Outcome::Stayed,
            Some((id, slot)) => {
                let (gadget, origin, _size) = grid.items[id];
                match gadget@.port(slot) {
                    None => Outcome::Stayed,
                    Some(port) => match chosen_target(gadget@, port, agent.direction, input) {
                        None => Outcome::Stayed,
                        Some((state, exit)) => {
                            let local = slot_double_midpoint(
                                gadget@.size,
                                gadget@.slot_of(exit),
                            );
                            Outcome::Moved {
                                id,
                                state,
                                double_xy: (2 * origin.0 + local.0, 2 * origin.1 + local.1),
                                direction: exit_facing(local),
                            }
                        },
                    },
                }
            },
        }
    }
}

/// Whether every gadget on a grid is well formed.
pub open spec fn gadgets_wf(grid: GridModel<Gadget>) -> bool {
    forall|id: u64| #[trigger] grid.items.contains_key(id) ==> grid.items[id].0.wf()
}

fn first(list: &Vec<SP>) -> (head: Option<SP>)
    ensures
        head == (if list@.len() > 0 {
            Some(list@[0])
        } else {
            None
        }),
{
    if list.len() > 0 {
        Some(list[0])
    } else {
        None
    }
}

/// Walks around in a maze of gadgets
pub struct Agent {
    /// Double the position, because then it's integers
    double_xy: (i64, i64),
    /// either (1, 0), (0, 1), (-1, 0), or (0, -1)
    direction: Vec2i,
}

impl View for Agent {
    type V = AgentModel;

    closed spec fn view(&self) -> AgentModel {
        AgentModel { double_xy: self.double_xy, direction: self.direction }
    }
}

impl Agent {
    /// The invariant of an agent; see [`AgentModel::wf`].
    pub open spec fn wf(&self) -> bool {
        self@.wf()
    }

    /// An agent at the position whose double is `double_xy`, facing
    /// `direction`.
    pub fn new(double_xy: (i64, i64), direction: Vec2i) -> (agent: Agent)
        requires
            direction.is_cardinal(),
        ensures
            agent.wf(),
            agent@ == (AgentModel { double_xy, direction }),
    {
        Agent { double_xy, direction }
    }

    /// Twice the position of the agent.
    pub fn double_position(&self) -> (double_xy: (i64, i64))
        ensures
            double_xy == self@.double_xy,
    {
        self.double_xy
    }

    pub fn direction(&self) -> (direction: Vec2i)
        ensures
            direction == self@.direction,
    {
        self.direction
    }

    /// Puts the agent at the position whose double is `double_xy`. Where the
    /// agent comes from an edge between two rows to an edge between two
    /// columns, or the other way round, it turns with the edge.
    pub fn set_double_position(&mut self, double_xy: (i64, i64))
        requires
            old(self).wf(),
        ensures
            final(self).wf(),
            final(self)@ == old(self)@.set_double_position(double_xy),
    {
        // Also make sure the direction is valid
        let old_x_misaligned = odd(self.double_xy.0);
        self.double_xy = double_xy;
        let new_x_misaligned = odd(self.double_xy.0);
        if old_x_misaligned && !new_x_misaligned {
            self.direction = self.direction.right_ccw();
        } else if !old_x_misaligned && new_x_misaligned {
            self.direction = self.direction.right_cw();
        }
    }

    /// Advances the agent according to internal rules: see
    /// [`advance_outcome`]. A turn around changes the facing and nothing
    /// else; a crossing changes the agent and the state of the gadget
    /// crossed; otherwise nothing changes at all.
    pub fn advance(&mut self, grid: &mut Grid<Gadget>, input: Vec2i)
        requires
            old(self).wf(),
            old(grid).wf(),
            gadgets_wf(old(grid)@),
        ensures
            final(self).wf(),
            final(grid).wf(),
            gadgets_wf(final(grid)@),
            match advance_outcome(old(self)@, old(grid)@, input) {
                Outcome::Turned => final(grid)@ == old(grid)@ && final(self)@ == (AgentModel {
                    direction: old(self)@.direction.spec_neg(),
                    ..old(self)@
                }),
                Outcome::Stayed => final(grid)@ == old(grid)@ && final(self)@ == old(self)@,
                Outcome::Moved { id, state, double_xy, direction } => {
                    &&& old(grid)@.items.contains_key(id)
                    &&& final(grid)@ == old(grid)@.with_payload(id, final(grid)@.items[id].0)
                    &&& final(grid)@.items[id].0@ == old(grid)@.items[id].0@.set_state(state)
                    &&& final(self)@.double_xy.0 == double_xy.0
                    &&& final(self)@.double_xy.1 == double_xy.1
                    &&& final(self)@.direction == direction
                },
            },
    {
        if input.dot_ex(self.direction) == -1 {
            // Turn around, that's it
            self.direction = self.direction.neg();
            return ;
        }
        let facing = self.direction;
        let ghost touched = old(grid)@.touching(self.double_xy, facing);
        match grid.get_item_touching_edge_mut(self.double_xy, facing) {
            Some((gadget, xy, _wh, idx)) => {
                let ghost id = touched.unwrap().0;
                let ghost before = *gadget;
                assert(before.wf());
                match target_at(gadget, idx, facing, input) {
                    Some((s1, p1)) => {
                        let (double_xy, direction) = exit_at(gadget, xy, p1);
                        self.double_xy = double_xy;
                        self.direction = direction;
                        gadget.set_state(s1);
                    },
                    None => {
                        proof {
                            assert(old(grid)@.with_payload(id, before).items =~= old(grid)@.items);
                        }
                    },
                }
            },
            None => {},
        }
    }

    /// Flips the agent so it faces the opposite direction
    pub fn flip(&mut self)
        requires
            old(self).wf(),
        ensures
            final(self).wf(),
            final(self)@ == (AgentModel {
                direction: old(self)@.direction.spec_neg(),
                ..old(self)@
            }),
    {
        self.direction = self.direction.neg();
    }
}

/// The destination that an agent takes in `gadget`, which it enters at the
/// slot `idx` of the footprint that the grid has for it.
fn target_at(gadget: &Gadget, idx: u64, facing: Vec2i, input: Vec2i) -> (target: Option<SP>)
    requires
        gadget.wf(),
        facing.is_cardinal(),
    ensures
        target == (match gadget@.port(idx as int) {
            Some(port) => chosen_target(gadget@, port, facing, input),
            None => None,
        }),
        target is Some ==> gadget@.mapped(target.unwrap().1),
{
    let entry = if idx <= usize::MAX as u64 {
        gadget.port(idx as usize)
    } else {
        proof {
            gadget.lemma_slots_fit();
        }
        None
    };
    match entry {
        Some(port) => {
            let brfl = gadget.targets_from_state_port_brfl(port, facing);
            let back = first(&brfl[0]);
            let right = first(&brfl[1]);
            let front = first(&brfl[2]);
            let left = first(&brfl[3]);
            proof {
                lemma_first_is_least(brfl[0]@, gadget@.targets_brfl(port, facing, 0));
                lemma_first_is_least(brfl[1]@, gadget@.targets_brfl(port, facing, 1));
                lemma_first_is_least(brfl[2]@, gadget@.targets_brfl(port, facing, 2));
                lemma_first_is_least(brfl[3]@, gadget@.targets_brfl(port, facing, 3));
                if back is Some {
                    assert(brfl[0]@.to_set().contains(brfl[0]@[0]));
                }
                if right is Some {
                    assert(brfl[1]@.to_set().contains(brfl[1]@[0]));
                }
                if front is Some {
                    assert(brfl[2]@.to_set().contains(brfl[2]@[0]));
                }
                if left is Some {
                    assert(brfl[3]@.to_set().contains(brfl[3]@[0]));
                }
            }
            pick(back, right, front, left, facing, input)
        },
        None => None,
    }
}

/// See [`pick_target`].
fn pick(
    back: Option<SP>,
    right: Option<SP>,
    front: Option<SP>,
    left: Option<SP>,
    facing: Vec2i,
    input: Vec2i,
) -> (target: Option<SP>)
    requires
        facing.is_cardinal(),
    ensures
        target == pick_target(back, right, front, left, facing, input),
{
    if input.dot_ex(facing) == 1 {
        // Forward
        if front.is_some() {
            front
        } else if left.is_some() != right.is_some() {
            if left.is_some() {
                left
            } else {
                right
            }
        } else {
            back
        }
    } else if same(facing.right_ccw(), input) {
        // Left
        left
    } else {
        // Right
        right
    }
}

/// Where an agent stands, doubled, and how it faces when it leaves `gadget`,
/// placed at `origin`, by the port `exit`.
fn exit_at(gadget: &Gadget, origin: XY, exit: Port) -> (out: ((i64, i64), Vec2i))
    requires
        gadget.wf(),
        gadget@.mapped(exit),
    ensures
        ({
            let local = slot_double_midpoint(gadget@.size, gadget@.slot_of(exit));
            &&& out.0.0 == 2 * origin.0 + local.0
            &&& out.0.1 == 2 * origin.1 + local.1
            &&& out.1 == exit_facing(local)
            &&& out.1.is_cardinal()
        }),
{
    let pos2 = match gadget.port_slot(exit) {
        Some(slot) => slot_double_position(gadget.size(), slot as u64),
        None => (0, 0),
    };
    let direction = if odd(pos2.0) {
        if pos2.1 == 0 {
            // Bottom
            Vec2i { x: 0, y: -1 }
        } else {
            // Top
            Vec2i { x: 0, y: 1 }
        }
    } else {
        if pos2.0 == 0 {
            // Left
            Vec2i { x: -1, y: 0 }
        } else {
            // Right
            Vec2i { x: 1, y: 0 }
        }
    };
    ((2 * (origin.0 as i64) + pos2.0, 2 * (origin.1 as i64) + pos2.1), direction)
}

fn same(a: Vec2i, b: Vec2i) -> (same: bool)
    ensures
        same == (a == b),
{
    a.x == b.x && a.y == b.y
}

/// Whether `v` is odd.
fn odd(v: i64) -> (odd: bool)
    ensures
        odd == (v % 2 != 0),
{
    if v >= 0 {
        v % 2 != 0
    } else if v == i64::MIN {
        false
    } else {
        (-v) % 2 != 0
    }
}

/// An input opposite to the facing turns the agent around and moves
/// nothing, whatever the grid holds.
pub proof fn lemma_opposite_input_turns(agent: AgentModel, grid: GridModel<Gadget>)
    requires
        agent.direction.is_cardinal(),
    ensures
        advance_outcome(agent, grid, agent.direction.spec_neg()) == Outcome::Turned,
{
    let facing = agent.direction;
    let input = facing.spec_neg();
    assert(input.x * facing.x + input.y * facing.y == -1) by (nonlinear_arith)
        requires
            input.x == -facing.x,
            input.y == -facing.y,
            (facing.x == 0 && (facing.y == 1 || facing.y == -1)) || (facing.y == 0 && (facing.x
                == 1 || facing.x == -1)),
    ;
}

} // verus!
